//! Positions in which the side that has just moved is not in check, and
//! which the legal moves keep so: kings are never captured.

use vstd::prelude::*;
use crate::attack_laws::{both_ways, lemma_attacks_back, lemma_slide_back, lemma_sliding_back, lemma_sliding_some};
use crate::attacks::{black_pawn_deltas, king_deltas, pawn_attacks_spec, slide, white_pawn_deltas, ALL_SQUARES};
use crate::bitboard::{bit, has_bit, lemma_lsb, lemma_no_bits, lsb};
use crate::board::BoardView;
use crate::color::Color;
use crate::laws::{at_most_one, forward, kings_of, lemma_single, pseudo_legal, well_formed};
use crate::legality::{castle_fit, ep_fit, is_stepper, lemma_after_castle, lemma_after_en_passant};
use crate::magic::lemma_set_bits;
use crate::position::{board_after, do_move_spec, ep_after, king, standard_moves, State};
use crate::reachable::sides_apart;
use crate::safety::{king_safe, lemma_after_normal};
use crate::square::Square;
use crate::threats::{lemma_at_most_one_bits, lemma_not_attacked, lemma_only_bit, lemma_piece_at, lemma_threat, threat};
use crate::types::{CastlingSide, Move, Role, Variant};

verus! {

/// The steps of the king go both ways.
pub proof fn lemma_king_deltas_both_ways()
    ensures
        both_ways(king_deltas()),
{
    let d = king_deltas();
    assert forall|i: int| 0 <= i < 8 implies exists|j: int|
        0 <= j < 8 && #[trigger] d[j] as int == -(#[trigger] d[i] as int) by {
        let j = if i < 4 {
            i + 4
        } else {
            i - 4
        };
        assert(d[j] as int == -(d[i] as int));
    }
}

/// A pawn attacks a square exactly from where a pawn of the other color on
/// that square would attack it.
pub proof fn lemma_pawn_back(color: Color, a: int, b: int)
    requires
        0 <= a < 64,
        0 <= b < 64,
        has_bit(pawn_attacks_spec(color, a), b),
    ensures
        has_bit(pawn_attacks_spec(color.other_spec(), b), a),
{
    let there = if color == Color::White {
        white_pawn_deltas()
    } else {
        black_pawn_deltas()
    };
    let back = if color == Color::White {
        black_pawn_deltas()
    } else {
        white_pawn_deltas()
    };
    lemma_sliding_some(a, ALL_SQUARES, there, b);
    lemma_sliding_some(b, ALL_SQUARES, back, a);
    let i = choose|i: int|
        0 <= i < there.len() && has_bit(slide(a, ALL_SQUARES, #[trigger] there[i] as int), b);
    lemma_slide_back(a, ALL_SQUARES, there[i] as int, b);
    assert(back[i] as int == -(there[i] as int));
}

/// A piece that may capture on a square threatens that square.
pub proof fn lemma_attacked_target(s: State, m: Move)
    requires
        s.board.wf(),
        pseudo_legal(s, m),
        m is Normal,
        has_bit(s.board.occupied(), m.to_spec().idx()),
    ensures
        threat(
            s.board,
            m.to_spec().idx(),
            s.turn,
            s.board.occupied(),
            m.from_spec().unwrap().idx(),
        ),
{
    let a = m.from_spec().unwrap().idx();
    let b = m.to_spec().idx();
    let occupied = s.board.occupied();
    let role = m.role_spec();
    lemma_piece_at(s.board, a);
    lemma_set_bits(s.board.by_color(s.turn), s.board.by_role(role), a);
    assert(has_bit(s.board.by_role(role), a));
    assert(has_bit(s.board.by_color(s.turn), a));
    match role {
        Role::Pawn => {
            lemma_pawn_back(s.turn, a, b);
        },
        Role::King => {
            lemma_king_deltas_both_ways();
            lemma_sliding_back(a, ALL_SQUARES, king_deltas(), b);
        },
        _ => {
            lemma_attacks_back(a, b, role, s.turn, s.turn, occupied);
            lemma_set_bits(
                crate::attacks::rook_attacks_spec(b, occupied),
                crate::attacks::bishop_attacks_spec(b, occupied),
                a,
            );
        },
    }
}

/// Boards with the same kings of a color have the same king of that
/// color.
pub proof fn lemma_same_king(first: BoardView, then: BoardView, color: Color)
    requires
        at_most_one(kings_of(first, color)),
        forall|e: int|
            0 <= e < 64 ==> (has_bit(kings_of(then, color), e) <==> has_bit(
                kings_of(first, color),
                e,
            )),
    ensures
        then.king_of(color) == first.king_of(color),
{
    let a = kings_of(first, color);
    let b = kings_of(then, color);
    if a == 0 {
        if b != 0 {
            lemma_lsb(b);
            lemma_no_bits(lsb(b));
        }
    } else {
        lemma_lsb(a);
        assert forall|j: int| 0 <= j < 64 && has_bit(b, j) implies j == lsb(a) by {
            lemma_at_most_one_bits(a, lsb(a), j);
        }
        lemma_only_bit(b, lsb(a));
    }
}

/// True if the castling rights go with kings and rooks on their squares,
/// the en passant square is one that a pawn has just passed, and the side
/// that has just moved is not in check.
pub open spec fn guarded(s: State) -> bool {
    &&& castle_fit(s, Color::White, CastlingSide::KingSide)
    &&& castle_fit(s, Color::White, CastlingSide::QueenSide)
    &&& castle_fit(s, Color::Black, CastlingSide::KingSide)
    &&& castle_fit(s, Color::Black, CastlingSide::QueenSide)
    &&& ep_fit(s)
    &&& king_safe(s.board, s.turn.other_spec())
}

/// The square on which a move captures, if the move is a capture.
pub open spec fn taken(m: Move) -> int {
    match m {
        Move::Normal { to, .. } => to.idx(),
        Move::EnPassant { from, to } => 8 * (from.idx() / 8) + to.idx() % 8,
        _ => -1,
    }
}

/// The side on which a castling move of the rules of standard chess
/// castles: king and rook stand on the back rank, and the squares that
/// they reach hold no piece of the other side.
pub proof fn lemma_castle_side(s: State, m: Move) -> (side: CastlingSide)
    requires
        well_formed(s),
        sides_apart(s, s.turn),
        castle_fit(s, s.turn, CastlingSide::KingSide),
        castle_fit(s, s.turn, CastlingSide::QueenSide),
        standard_moves(s).contains(m),
        m is Castle,
    ensures
        king(s) == Some(m->king),
        s.castles.rook_spec(s.turn, side) == Some(m->rook),
        crate::position::side_of(m->king, m->rook) == side,
        0 <= m->king.idx() < 64,
        0 <= m->rook.idx() < 64,
        m->king.idx() / 8 == CastlingSide::backrank_idx(s.turn),
        m->rook.idx() / 8 == CastlingSide::backrank_idx(s.turn),
        s.board.color_at(side.rook_to_spec(s.turn).idx()) != Some(s.turn.other_spec()),
        s.board.color_at(side.king_to_spec(s.turn).idx()) != Some(s.turn.other_spec()),
        s.board.color_at(m->king.idx()) == Some(s.turn),
        s.board.color_at(m->rook.idx()) == Some(s.turn),
{
    broadcast use Square::lemma_idx_at;
    broadcast use Square::lemma_at_idx;

    let ep = crate::movegen::en_passant(s.board, s.turn, s.ep_square);
    let free = !crate::position::us(s);
    crate::laws::lemma_apart(crate::position::us(s), 0, 0);
    let others = if crate::position::checkers(s) == 0 {
        crate::movegen::non_king(s.board, s.turn, free) + crate::position::safe_king_moves(s, free)
            + crate::position::both_castlings(s)
    } else {
        crate::position::evasion_moves(s)
    };
    crate::candidate_laws::lemma_pin_iff(s, ep + others, ep.len() > 0, m);
    crate::candidate_laws::lemma_concat_iff(ep, others, m);
    crate::laws::lemma_en_passant(s.board, s.turn, s.ep_square);
    crate::laws::lemma_evasion_moves(s);
    crate::laws::lemma_non_king(s, free);
    crate::laws::lemma_safe_king_moves(s, free);
    let a = crate::movegen::non_king(s.board, s.turn, free);
    let g = crate::position::safe_king_moves(s, free);
    let c = crate::position::both_castlings(s);
    crate::candidate_laws::lemma_concat_iff(a + g, c, m);
    crate::candidate_laws::lemma_concat_iff(a, g, m);
    assert(c.contains(m));
    let k = king(s).unwrap();
    let on_king_side = crate::movegen::castling(
        s.variant,
        s.board,
        s.turn,
        s.castles,
        k,
        CastlingSide::KingSide,
    );
    let on_queen_side = crate::movegen::castling(
        s.variant,
        s.board,
        s.turn,
        s.castles,
        k,
        CastlingSide::QueenSide,
    );
    crate::candidate_laws::lemma_concat_iff(on_king_side, on_queen_side, m);
    let side = if on_king_side.contains(m) {
        CastlingSide::KingSide
    } else {
        CastlingSide::QueenSide
    };
    crate::laws::lemma_castling(s.variant, s.board, s.turn, s.castles, k, side);
    crate::laws::lemma_king_of(s.board, s.turn);
    let rt = side.rook_to_spec(s.turn).idx();
    let kt = side.king_to_spec(s.turn).idx();
    let path = s.castles.path_spec(s.turn, side).0;
    lemma_piece_at(s.board, k.idx());
    lemma_piece_at(s.board, rt);
    lemma_piece_at(s.board, kt);
    lemma_set_bits(s.board.by_color(s.turn), s.board.by_role(Role::King), k.idx());
    lemma_set_bits(path, s.board.occupied(), rt);
    lemma_set_bits(path, s.board.occupied(), kt);
    lemma_no_bits(rt);
    lemma_no_bits(kt);
    side
}

/// True if a move changes on the square `e` no more than a move does: a
/// piece of the other side stands after the move where it stood, unless
/// it was captured, no such piece appears, and a piece of the side that
/// moves stays where it is, unless it is the one that moves or the side
/// castles.
pub open spec fn changes(s: State, m: Move, e: int) -> bool {
    let after = board_after(s.board, s.turn, m);
    let by = s.turn.other_spec();
    &&& after.wf()
    &&& (after.color_at(e) == Some(by) ==> s.board.color_at(e) == Some(by) && after.role_at(e)
        == s.board.role_at(e))
    &&& (s.board.color_at(e) == Some(by) && e != taken(m) ==> after.color_at(e) == Some(by)
        && after.role_at(e) == s.board.role_at(e))
    &&& (s.board.color_at(e) == Some(s.turn) && !(m is Castle) && Some(Square::at(e))
        != m.from_spec() ==> after.color_at(e) == Some(s.turn) && after.role_at(e)
        == s.board.role_at(e))
    &&& (after.color_at(e) == Some(s.turn) && !(m is Castle) && e != m.to_spec().idx()
        ==> s.board.color_at(e) == Some(s.turn) && after.role_at(e) == s.board.role_at(e))
}

/// What a move of a piece changes on the board.
pub proof fn lemma_changes_normal(s: State, m: Move, e: int)
    requires
        s.board.wf(),
        pseudo_legal(s, m),
        m is Normal,
        0 <= e < 64,
    ensures
        changes(s, m, e),
{
    broadcast use Square::lemma_idx_at;
    broadcast use Square::lemma_at_idx;

    let a = m.from_spec().unwrap().idx();
    lemma_piece_at(s.board, e);
    lemma_after_normal(s, m, e);
    lemma_piece_at(s.board, m.to_spec().idx());
    lemma_piece_at(s.board, a);
    lemma_set_bits(s.board.by_color(s.turn), s.board.by_role(m.role_spec()), a);
    assert(has_bit(s.board.by_color(s.turn), a));
}

/// What castling changes on the board.
pub proof fn lemma_changes_castle(s: State, m: Move, e: int)
    requires
        well_formed(s),
        sides_apart(s, s.turn),
        castle_fit(s, s.turn, CastlingSide::KingSide),
        castle_fit(s, s.turn, CastlingSide::QueenSide),
        standard_moves(s).contains(m),
        m is Castle,
        0 <= e < 64,
    ensures
        changes(s, m, e),
{
    broadcast use Square::lemma_idx_at;
    broadcast use Square::lemma_at_idx;

    lemma_piece_at(s.board, e);
    let side = lemma_castle_side(s, m);
    lemma_after_castle(s, m, e);
}

/// What a capture en passant changes on the board.
pub proof fn lemma_changes_en_passant(s: State, m: Move, e: int)
    requires
        s.board.wf(),
        ep_fit(s),
        pseudo_legal(s, m),
        m is EnPassant,
        0 <= e < 64,
    ensures
        changes(s, m, e),
{
    broadcast use Square::lemma_idx_at;
    broadcast use Square::lemma_at_idx;

    let from = m.from_spec().unwrap();
    let to = m.to_spec();
    lemma_piece_at(s.board, e);
    lemma_after_en_passant(s, m, e);
    let by = s.turn.other_spec();
    lemma_set_bits(
        s.board.pawns & s.board.by_color(s.turn),
        pawn_attacks_spec(by, to.idx()),
        from.idx(),
    );
    lemma_set_bits(s.board.pawns, s.board.by_color(s.turn), from.idx());
    crate::laws::lemma_pawn_attack(by, to.idx(), from.idx());
    lemma_piece_at(s.board, from.idx());
    lemma_piece_at(s.board, to.idx());
    assert(has_bit(s.board.by_color(s.turn), from.idx()));
}

/// What a move that the rules of standard chess allow changes on the
/// board.
pub proof fn lemma_after_move(s: State, m: Move, e: int)
    requires
        well_formed(s),
        sides_apart(s, s.turn),
        castle_fit(s, s.turn, CastlingSide::KingSide),
        castle_fit(s, s.turn, CastlingSide::QueenSide),
        ep_fit(s),
        standard_moves(s).contains(m),
        0 <= e < 64,
    ensures
        changes(s, m, e),
{
    crate::laws::lemma_standard_moves(s);
    match m {
        Move::Normal { .. } => {
            lemma_changes_normal(s, m, e);
        },
        Move::Castle { .. } => {
            lemma_changes_castle(s, m, e);
        },
        Move::EnPassant { .. } => {
            lemma_changes_en_passant(s, m, e);
        },
        Move::Put { .. } => {},
    }
}

/// True if a position is well formed and guarded, with one king at most
/// on each side and the castling rooks on their sides of the king, in a
/// variant in which kings are attacked as in standard chess.
pub open spec fn ready(s: State) -> bool {
    &&& well_formed(s)
    &&& s.variant != Variant::Atomic
    &&& s.variant != Variant::Antichess
    &&& at_most_one(kings_of(s.board, Color::White))
    &&& at_most_one(kings_of(s.board, Color::Black))
    &&& sides_apart(s, Color::White)
    &&& sides_apart(s, Color::Black)
    &&& guarded(s)
}

/// A piece does not capture the king of a side that is not in check.
pub proof fn lemma_no_king_capture(s: State, m: Move)
    requires
        s.board.wf(),
        pseudo_legal(s, m),
        m is Normal,
        at_most_one(kings_of(s.board, s.turn.other_spec())),
        king_safe(s.board, s.turn.other_spec()),
    ensures
        !(s.board.color_at(m.to_spec().idx()) == Some(s.turn.other_spec()) && s.board.role_at(
            m.to_spec().idx(),
        ) == Some(Role::King)),
{
    broadcast use Square::lemma_idx_at;

    let by = s.turn.other_spec();
    let b = m.to_spec().idx();
    if s.board.color_at(b) == Some(by) && s.board.role_at(b) == Some(Role::King) {
        crate::laws::lemma_king_of(s.board, by);
        lemma_piece_at(s.board, b);
        lemma_set_bits(s.board.by_color(by), s.board.by_role(Role::King), b);
        lemma_has_kings(s.board, by, b);
        let k = s.board.king_of(by).unwrap();
        lemma_at_most_one_bits(kings_of(s.board, by), k.idx(), b);
        lemma_attacked_target(s, m);
        lemma_not_attacked(s.board, b, s.turn, s.board.occupied(), m.from_spec().unwrap().idx());
    }
}

/// A color with a king on a square has a king.
pub proof fn lemma_has_kings(board: BoardView, color: Color, e: int)
    requires
        has_bit(kings_of(board, color), e),
    ensures
        board.king_of(color).is_some(),
{
    crate::bitboard::lemma_has_bit_nonzero(kings_of(board, color), e);
}

/// Boards on which the same squares hold a king of a color have the same
/// king of that color.
pub proof fn lemma_kings_same(first: BoardView, then: BoardView, color: Color)
    requires
        first.wf(),
        then.wf(),
        at_most_one(kings_of(first, color)),
        forall|e: int|
            0 <= e < 64 ==> ((then.color_at(e) == Some(color) && then.role_at(e) == Some(
                Role::King,
            )) <==> (first.color_at(e) == Some(color) && #[trigger] first.role_at(e) == Some(
                Role::King,
            ))),
    ensures
        then.king_of(color) == first.king_of(color),
{
    assert forall|e: int| 0 <= e < 64 implies (has_bit(kings_of(then, color), e) <==> has_bit(
        kings_of(first, color),
        e,
    )) by {
        lemma_piece_at(then, e);
        lemma_piece_at(first, e);
        lemma_set_bits(then.by_color(color), then.by_role(Role::King), e);
        lemma_set_bits(first.by_color(color), first.by_role(Role::King), e);
        assert(first.role_at(e) == first.role_at(e));
    }
    lemma_same_king(first, then, color);
}

/// The captured pawn of a capture en passant stands behind the en passant
/// square.
pub proof fn lemma_victim(s: State, m: Move)
    requires
        s.board.wf(),
        ep_fit(s),
        pseudo_legal(s, m),
        m is EnPassant,
    ensures
        0 <= taken(m) < 64,
        s.board.role_at(taken(m)) == Some(Role::Pawn),
        s.board.color_at(taken(m)) == Some(s.turn.other_spec()),
        s.board.role_at(m.from_spec().unwrap().idx()) == Some(Role::Pawn),
        s.board.color_at(m.from_spec().unwrap().idx()) == Some(s.turn),
{
    let from = m.from_spec().unwrap();
    let to = m.to_spec();
    let by = s.turn.other_spec();
    lemma_set_bits(
        s.board.pawns & s.board.by_color(s.turn),
        pawn_attacks_spec(by, to.idx()),
        from.idx(),
    );
    lemma_set_bits(s.board.pawns, s.board.by_color(s.turn), from.idx());
    crate::laws::lemma_pawn_attack(by, to.idx(), from.idx());
    lemma_piece_at(s.board, from.idx());
    assert(has_bit(s.board.by_color(s.turn), from.idx()));
    assert(has_bit(s.board.by_role(Role::Pawn), from.idx()));
}

/// The piece that a move takes from its square is of the side that moves
/// and of the role that the move names.
pub proof fn lemma_mover(s: State, m: Move)
    requires
        s.board.wf(),
        pseudo_legal(s, m),
        m is Normal,
    ensures
        s.board.role_at(m.from_spec().unwrap().idx()) == Some(m.role_spec()),
        s.board.color_at(m.from_spec().unwrap().idx()) == Some(s.turn),
        s.board.color_at(m.to_spec().idx()) != Some(s.turn),
        s.board.color_at(m.to_spec().idx()).is_some() ==> m.capture_spec() == s.board.role_at(
            m.to_spec().idx(),
        ),
{
    let a = m.from_spec().unwrap().idx();
    let b = m.to_spec().idx();
    lemma_piece_at(s.board, a);
    lemma_piece_at(s.board, b);
    lemma_set_bits(s.board.by_color(s.turn), s.board.by_role(m.role_spec()), a);
    assert(has_bit(s.board.by_color(s.turn), a));
    assert(has_bit(s.board.by_role(m.role_spec()), a));
}

/// A move that the rules of standard chess allow does not capture the
/// king of the other side, which stays where it is.
pub proof fn lemma_their_king_stays(s: State, m: Move)
    requires
        ready(s),
        standard_moves(s).contains(m),
    ensures
        board_after(s.board, s.turn, m).king_of(s.turn.other_spec()) == s.board.king_of(
            s.turn.other_spec(),
        ),
        board_after(s.board, s.turn, m).wf(),
{
    let by = s.turn.other_spec();
    let after = board_after(s.board, s.turn, m);
    crate::laws::lemma_standard_moves(s);
    if m is Normal {
        lemma_no_king_capture(s, m);
    }
    if m is EnPassant {
        lemma_victim(s, m);
    }
    lemma_after_move(s, m, 0);
    assert forall|e: int| 0 <= e < 64 implies ((after.color_at(e) == Some(by) && after.role_at(e)
        == Some(Role::King)) <==> (s.board.color_at(e) == Some(by) && #[trigger] s.board.role_at(e)
        == Some(Role::King))) by {
        lemma_after_move(s, m, e);
    }
    lemma_kings_same(s.board, after, by);
}

/// The king of the side that moves stays where it is, unless it moves or
/// castles.
pub proof fn lemma_our_king_stays(s: State, m: Move)
    requires
        ready(s),
        standard_moves(s).contains(m),
        !(m is Castle),
        !(m is Normal && m.role_spec() == Role::King),
    ensures
        board_after(s.board, s.turn, m).king_of(s.turn) == s.board.king_of(s.turn),
{
    broadcast use Square::lemma_idx_at;
    broadcast use Square::lemma_at_idx;

    let after = board_after(s.board, s.turn, m);
    crate::laws::lemma_standard_moves(s);
    if m is Normal {
        lemma_mover(s, m);
        lemma_after_normal(s, m, m.to_spec().idx());
    }
    if m is EnPassant {
        lemma_victim(s, m);
        lemma_after_en_passant(s, m, m.to_spec().idx());
    }
    lemma_after_move(s, m, 0);
    assert forall|e: int| 0 <= e < 64 implies ((after.color_at(e) == Some(s.turn) && after.role_at(
        e,
    ) == Some(Role::King)) <==> (s.board.color_at(e) == Some(s.turn) && #[trigger] s.board.role_at(
        e,
    ) == Some(Role::King))) by {
        lemma_after_move(s, m, e);
    }
    lemma_kings_same(s.board, after, s.turn);
}

/// The castling rights that are left after a move still go with kings and
/// rooks on their squares.
pub proof fn lemma_castle_fit_after(s: State, m: Move, color: Color, side: CastlingSide)
    requires
        ready(s),
        standard_moves(s).contains(m),
    ensures
        castle_fit(do_move_spec(s, m), color, side),
{
    broadcast use Square::lemma_idx_at;
    broadcast use Square::lemma_at_idx;

    let t = do_move_spec(s, m);
    crate::laws::lemma_standard_moves(s);
    match t.castles.rook_spec(color, side) {
        None => {},
        Some(r) => {
            assert(s.castles.rook_spec(color, side) == Some(r));
            assert(t.castles.path_spec(color, side) == s.castles.path_spec(color, side));
            assert(castle_fit(s, color, side));
            lemma_after_move(s, m, r.idx());
            if m is Normal {
                lemma_mover(s, m);
            }
            if m is EnPassant {
                lemma_victim(s, m);
            }
            if color == s.turn {
                lemma_our_king_stays(s, m);
            } else {
                lemma_their_king_stays(s, m);
            }
        },
    }
}

/// A move that leaves an en passant square is the move of a pawn two
/// squares ahead, over that square, which stays empty.
pub proof fn lemma_pushed_pawn(s: State, m: Move)
    requires
        s.board.wf(),
        pseudo_legal(s, m),
        ep_after(m).is_some(),
    ensures
        m is Normal,
        m.role_spec() == Role::Pawn,
        m.promotion_spec().is_none(),
        ep_after(m).unwrap().idx() == m.from_spec().unwrap().idx() + 8 * forward(s.turn),
        m.to_spec().idx() == m.from_spec().unwrap().idx() + 16 * forward(s.turn),
        0 <= ep_after(m).unwrap().idx() < 64,
        !has_bit(s.board.occupied(), ep_after(m).unwrap().idx()),
{
    broadcast use Square::lemma_idx_at;

    let a = m.from_spec().unwrap().idx();
    let b = m.to_spec().idx();
    if has_bit(pawn_attacks_spec(s.turn, a), b) {
        crate::laws::lemma_pawn_attack(s.turn, a, b);
    }
}

/// A pawn, knight or king that threatens a square after a move of a
/// piece, and is not that piece, threatened it before.
pub proof fn lemma_stepper_threat(s: State, m: Move, k: int, x: int)
    requires
        s.board.wf(),
        pseudo_legal(s, m),
        m is Normal,
        0 <= x < 64,
        x != m.to_spec().idx(),
        threat(
            board_after(s.board, s.turn, m),
            k,
            s.turn,
            board_after(s.board, s.turn, m).occupied(),
            x,
        ),
        is_stepper(board_after(s.board, s.turn, m).role_at(x)),
    ensures
        threat(s.board, k, s.turn, s.board.occupied(), x),
{
    lemma_after_normal(s, m, x);
}

/// After a move the en passant square, if there is one, is one that a
/// pawn has just passed.
pub proof fn lemma_ep_fit_after(s: State, m: Move)
    requires
        ready(s),
        standard_moves(s).contains(m),
    ensures
        ep_fit(do_move_spec(s, m)),
{
    let t = do_move_spec(s, m);
    let after = t.board;
    crate::laws::lemma_standard_moves(s);
    match ep_after(m) {
        None => {},
        Some(e) => {
            lemma_pushed_pawn(s, m);
            let b = m.to_spec().idx();
            lemma_after_normal(s, m, b);
            lemma_after_normal(s, m, e.idx());
            lemma_their_king_stays(s, m);
            assert(e.idx() - 8 * forward(t.turn) == b);
            match after.king_of(t.turn) {
                None => {},
                Some(k) => {
                    assert forall|x: int|
                        0 <= x < 64 && #[trigger] threat(
                            after,
                            k.idx(),
                            s.turn,
                            after.occupied(),
                            x,
                        ) && is_stepper(after.role_at(x)) implies x == b by {
                        if x != b {
                            lemma_stepper_threat(s, m, k.idx(), x);
                            lemma_not_attacked(s.board, k.idx(), s.turn, s.board.occupied(), x);
                        }
                    }
                },
            }
        },
    }
}

/// A move that the rules of standard chess allow leads from a guarded
/// position to a guarded position.
pub proof fn lemma_guarded_after(s: State, m: Move)
    requires
        ready(s),
        standard_moves(s).contains(m),
    ensures
        guarded(do_move_spec(s, m)),
{
    lemma_castle_fit_after(s, m, Color::White, CastlingSide::KingSide);
    lemma_castle_fit_after(s, m, Color::White, CastlingSide::QueenSide);
    lemma_castle_fit_after(s, m, Color::Black, CastlingSide::KingSide);
    lemma_castle_fit_after(s, m, Color::Black, CastlingSide::QueenSide);
    lemma_ep_fit_after(s, m);
    crate::legality::lemma_standard_moves_safe(s, m);
}

/// True for standard chess and the variants that move by its rules, with
/// drops or without, or with fewer moves: King of the Hill, Three-Check,
/// Crazyhouse, Racing Kings and Horde.
pub open spec fn plays_standard(variant: Variant) -> bool {
    variant != Variant::Atomic && variant != Variant::Antichess
}

/// True if no side is in check and there is neither a castling right nor
/// an en passant square, as in every position of Racing Kings.
pub open spec fn quiet(s: State) -> bool {
    &&& king_safe(s.board, s.turn)
    &&& s.ep_square.is_none()
    &&& s.castles.rook_spec(Color::White, CastlingSide::KingSide).is_none()
    &&& s.castles.rook_spec(Color::White, CastlingSide::QueenSide).is_none()
    &&& s.castles.rook_spec(Color::Black, CastlingSide::KingSide).is_none()
    &&& s.castles.rook_spec(Color::Black, CastlingSide::QueenSide).is_none()
}

/// The legal moves of Racing Kings are the moves that the rules of
/// standard chess allow and that give no check, as long as the game is
/// not over.
pub proof fn lemma_racing_moves(s: State, m: Move)
    requires
        s.variant == Variant::RacingKings,
        quiet(s),
    ensures
        crate::rules::racing_moves(s).contains(m) <==> !crate::rules::racing_end(s)
            && standard_moves(s).contains(m) && crate::position::checkers(
            crate::rules::racing_play(s, m),
        ) == 0,
{
    let free = !crate::position::us(s);
    let a = crate::movegen::non_king(s.board, s.turn, free);
    let g = crate::position::safe_king_moves(s, free);
    let c = crate::position::both_castlings(s);
    let ep = crate::movegen::en_passant(s.board, s.turn, s.ep_square);
    assert(c =~= Seq::<Move>::empty()) by {
        match king(s) {
            Some(k) => {
                assert(crate::movegen::castling(
                    s.variant,
                    s.board,
                    s.turn,
                    s.castles,
                    k,
                    CastlingSide::KingSide,
                ) =~= Seq::<Move>::empty());
                assert(crate::movegen::castling(
                    s.variant,
                    s.board,
                    s.turn,
                    s.castles,
                    k,
                    CastlingSide::QueenSide,
                ) =~= Seq::<Move>::empty());
            },
            None => {},
        }
    }
    assert(ep =~= Seq::<Move>::empty());
    assert(ep + (a + g + c) =~= a + g);
    assert(crate::position::checkers(s) == 0);
    crate::candidate_laws::lemma_filter_iff(
        crate::position::pin_filtered(s, a + g, false),
        crate::rules::no_check_fn(s),
        m,
    );
}

/// What stands on a square after a drop: the piece on its square, and
/// elsewhere what stood there.
pub proof fn lemma_after_drop(s: State, m: Move, e: int)
    requires
        s.board.wf(),
        pseudo_legal(s, m),
        m is Put,
        0 <= e < 64,
    ensures
        ({
            let after = board_after(s.board, s.turn, m);
            let b = m.to_spec().idx();
            &&& after.wf()
            &&& s.board.color_at(b).is_none()
            &&& after.color_at(e) == (if e == b {
                Some(s.turn)
            } else {
                s.board.color_at(e)
            })
            &&& after.role_at(e) == (if e == b {
                Some(m.role_spec())
            } else {
                s.board.role_at(e)
            })
            &&& (has_bit(after.occupied(), e) <==> e == b || has_bit(s.board.occupied(), e))
        }),
{
    let b = m.to_spec().idx();
    let after = board_after(s.board, s.turn, m);
    s.board.lemma_patched_wf(bit(b), Some(m.role_spec()), Some(s.turn), false);
    crate::threats::lemma_patched_at(s.board, b, Some(m.role_spec()), Some(s.turn), false, e);
    lemma_piece_at(s.board, b);
    lemma_piece_at(s.board, e);
    lemma_piece_at(after, e);
}

/// After a drop each side has the king that it had.
pub proof fn lemma_drop_keeps_kings(s: State, m: Move, color: Color)
    requires
        s.board.wf(),
        pseudo_legal(s, m),
        m is Put,
        at_most_one(kings_of(s.board, color)),
    ensures
        board_after(s.board, s.turn, m).king_of(color) == s.board.king_of(color),
        board_after(s.board, s.turn, m).wf(),
{
    let after = board_after(s.board, s.turn, m);
    lemma_after_drop(s, m, 0);
    assert forall|e: int| 0 <= e < 64 implies ((after.color_at(e) == Some(color) && after.role_at(
        e,
    ) == Some(Role::King)) <==> (s.board.color_at(e) == Some(color) && #[trigger] s.board.role_at(
        e,
    ) == Some(Role::King))) by {
        lemma_after_drop(s, m, e);
    }
    lemma_kings_same(s.board, after, color);
}

/// A drop of Crazyhouse leaves the king of the side that dropped out of
/// check.
pub proof fn lemma_drop_safe(s: State, m: Move)
    requires
        s.board.wf(),
        s.variant == Variant::Crazyhouse,
        at_most_one(kings_of(s.board, s.turn)),
        crate::rules::drops(s).contains(m),
    ensures
        king_safe(board_after(s.board, s.turn, m), s.turn),
{
    broadcast use Square::lemma_idx_at;

    crate::laws::lemma_drops(s);
    let b = m.to_spec().idx();
    let by = s.turn.other_spec();
    let after = board_after(s.board, s.turn, m);
    let first = s.board.occupied();
    let then = after.occupied();
    crate::san_laws::lemma_drop_candidate(s, m.role_spec(), m.to_spec(), m);
    assert(has_bit(crate::rules::put_squares(s), b));
    lemma_drop_keeps_kings(s, m, s.turn);
    crate::laws::lemma_king_of(s.board, s.turn);
    lemma_after_drop(s, m, b);
    match s.board.king_of(s.turn) {
        None => {},
        Some(king) => {
            let k = king.idx();
            let c = crate::position::checkers(crate::position::chess_part(s));
            assert(c == s.board.attacks_to(k, by, first));
            assert forall|e: int| 0 <= e < 64 && has_bit(first, e) implies has_bit(then, e) by {
                lemma_after_drop(s, m, e);
            }
            assert forall|x: int| 0 <= x < 64 implies !threat(after, k, by, then, x) by {
                if threat(after, k, by, then, x) {
                    lemma_after_drop(s, m, x);
                    let role = s.board.role_at(x);
                    if !is_stepper(role) {
                        let along = (role == Some(Role::Rook) || role == Some(Role::Queen))
                            && has_bit(crate::attacks::rook_attacks_spec(k, then), x);
                        let w = crate::line_laws::lemma_line_some(along, k, then, x);
                        crate::ray_laws::lemma_slide_less(k, first, then, w.delta, x);
                        crate::line_laws::lemma_line_has(along, k, first, w.delta, w.dr, w.df, x);
                    }
                    assert(threat(s.board, k, by, first, x));
                    lemma_threat(s.board, k, by, first, x);
                    lemma_no_bits(x);
                    lemma_no_bits(b);
                    lemma_at_most_one_bits(c, x, x);
                    let checker = lsb(c);
                    lemma_set_bits(crate::attacks::between_spec(checker, k), !first, b);
                    let r = crate::line_laws::lemma_between(checker, k, b);
                    let d = r.1;
                    lemma_slide_back(checker, 0, d.delta, b);
                    lemma_slide_back(b, 0, d.delta, k);
                    crate::safety::lemma_blocked(
                        after,
                        k,
                        by,
                        then,
                        x,
                        b,
                        crate::line_laws::Way { delta: -d.delta, dr: -d.dr, df: -d.df },
                    );
                }
            }
            crate::threats::lemma_no_threat(after, k, by, then);
        },
    }
}

/// True if a position of a variant that plays by the moves of standard
/// chess is sound and guarded: beyond what holds of every sound position,
/// the castling rights go with kings and rooks on their squares, the en
/// passant square is one that a pawn has just passed, and the side that
/// has just moved is not in check. A position of Racing Kings is quiet
/// too.
pub open spec fn secure(s: State) -> bool {
    &&& crate::reachable::sound(s)
    &&& plays_standard(s.variant)
    &&& guarded(s)
    &&& (s.variant == Variant::RacingKings ==> quiet(s))
}

/// A position with the board, the turn and the castling rights of a
/// guarded position, and with its en passant square or none, is guarded.
pub proof fn lemma_guarded_same(a: State, b: State)
    requires
        a.board == b.board,
        a.turn == b.turn,
        a.castles == b.castles,
        a.ep_square == b.ep_square || b.ep_square.is_none(),
        guarded(a),
    ensures
        guarded(b),
{
    assert(castle_fit(b, Color::White, CastlingSide::KingSide) == castle_fit(
        a,
        Color::White,
        CastlingSide::KingSide,
    ));
    assert(castle_fit(b, Color::White, CastlingSide::QueenSide) == castle_fit(
        a,
        Color::White,
        CastlingSide::QueenSide,
    ));
    assert(castle_fit(b, Color::Black, CastlingSide::KingSide) == castle_fit(
        a,
        Color::Black,
        CastlingSide::KingSide,
    ));
    assert(castle_fit(b, Color::Black, CastlingSide::QueenSide) == castle_fit(
        a,
        Color::Black,
        CastlingSide::QueenSide,
    ));
    assert(king(a) == king(b));
    if a.ep_square == b.ep_square {
        assert(ep_fit(b) == ep_fit(a));
    }
}

/// The position whose standard moves are the legal moves of a position
/// of a variant that plays by the moves of standard chess.
pub open spec fn ruled(s: State) -> State {
    if s.variant == Variant::Chess || s.variant == Variant::Horde || s.variant
        == Variant::RacingKings {
        s
    } else {
        crate::position::chess_part(s)
    }
}

/// A secure position is ready, and so is the position by whose standard
/// moves it is played.
pub proof fn lemma_secure_ready(s: State)
    requires
        secure(s),
    ensures
        ready(s),
        ready(ruled(s)),
{
    let t = ruled(s);
    lemma_guarded_same(s, t);
    assert(sides_apart(t, Color::White) == sides_apart(s, Color::White));
    assert(sides_apart(t, Color::Black) == sides_apart(s, Color::Black));
}

/// A drop of Crazyhouse leads from a guarded position to a guarded
/// position.
pub proof fn lemma_guarded_after_drop(s: State, m: Move)
    requires
        ready(s),
        s.variant == Variant::Crazyhouse,
        crate::rules::drops(s).contains(m),
    ensures
        guarded(do_move_spec(s, m)),
{
    crate::laws::lemma_drops(s);
    lemma_drop_safe(s, m);
    lemma_drop_fit(s, m, Color::White, CastlingSide::KingSide);
    lemma_drop_fit(s, m, Color::White, CastlingSide::QueenSide);
    lemma_drop_fit(s, m, Color::Black, CastlingSide::KingSide);
    lemma_drop_fit(s, m, Color::Black, CastlingSide::QueenSide);
}

/// After a drop the castling rights still go with kings and rooks on
/// their squares.
pub proof fn lemma_drop_fit(s: State, m: Move, color: Color, side: CastlingSide)
    requires
        s.board.wf(),
        pseudo_legal(s, m),
        m is Put,
        at_most_one(kings_of(s.board, color)),
        castle_fit(s, color, side),
    ensures
        castle_fit(do_move_spec(s, m), color, side),
{
    let t = do_move_spec(s, m);
    match t.castles.rook_spec(color, side) {
        None => {},
        Some(r) => {
            lemma_drop_keeps_kings(s, m, color);
            lemma_after_drop(s, m, r.idx());
        },
    }
}

/// A legal move of Racing Kings is one that the rules of standard chess
/// allow, and leads from a quiet position to a quiet position.
pub proof fn lemma_racing_quiet_after(s: State, m: Move)
    requires
        s.variant == Variant::RacingKings,
        quiet(s),
        crate::rules::racing_moves(s).contains(m),
    ensures
        standard_moves(s).contains(m),
        quiet(crate::rules::racing_play(s, m)),
{
    lemma_racing_moves(s, m);
    let t = crate::rules::racing_play(s, m);
    assert(crate::position::checkers(t) == 0);
    assert(king(t) == t.board.king_of(t.turn));
}

/// A legal move of a secure position is one that the rules of standard
/// chess allow, or in Crazyhouse a drop.
pub proof fn lemma_legal_kinds(s: State, m: Move)
    requires
        secure(s),
        crate::rules::legal_moves_spec(s).contains(m),
    ensures
        standard_moves(ruled(s)).contains(m) || (s.variant == Variant::Crazyhouse
            && crate::rules::drops(s).contains(m)),
{
    if s.variant == Variant::Crazyhouse {
        crate::candidate_laws::lemma_concat_iff(
            standard_moves(ruled(s)),
            crate::rules::drops(s),
            m,
        );
    }
    if s.variant == Variant::RacingKings {
        lemma_racing_quiet_after(s, m);
    }
}

/// A legal move leads from a secure position to a guarded position.
pub proof fn lemma_play_guarded(s: State, m: Move)
    requires
        secure(s),
        crate::rules::legal_moves_spec(s).contains(m),
    ensures
        guarded(crate::rules::play_spec(s, m)),
{
    let t = ruled(s);
    lemma_secure_ready(s);
    lemma_legal_kinds(s, m);
    if standard_moves(t).contains(m) {
        lemma_guarded_after(t, m);
        lemma_guarded_same(do_move_spec(t, m), crate::rules::play_spec(s, m));
    } else {
        lemma_guarded_after_drop(s, m);
        lemma_guarded_same(do_move_spec(s, m), crate::rules::play_spec(s, m));
    }
}

/// A legal move leads from a secure position to a secure position. So in
/// every position that is reached from a secure one the side that has
/// just moved is not in check.
pub proof fn lemma_play_secure(s: State, m: Move)
    requires
        secure(s),
        crate::rules::legal_moves_spec(s).contains(m),
    ensures
        secure(crate::rules::play_spec(s, m)),
        standard_moves(ruled(s)).contains(m) || (s.variant == Variant::Crazyhouse
            && crate::rules::drops(s).contains(m)),
{
    crate::reachable::lemma_play_sound(s, m);
    lemma_play_guarded(s, m);
    lemma_legal_kinds(s, m);
    if s.variant == Variant::RacingKings {
        lemma_racing_quiet_after(s, m);
    }
}

/// A legal move in a secure position captures no king: a side that has a
/// king has one after the move, and a side that has none has none.
pub proof fn lemma_play_keeps_kings(s: State, m: Move, color: Color)
    requires
        secure(s),
        crate::rules::legal_moves_spec(s).contains(m),
    ensures
        crate::rules::play_spec(s, m).board.king_of(color).is_some() == s.board.king_of(
            color,
        ).is_some(),
{
    broadcast use Square::lemma_idx_at;

    let t = ruled(s);
    lemma_secure_ready(s);
    lemma_play_secure(s, m);
    let after = board_after(s.board, s.turn, m);
    assert(crate::rules::play_spec(s, m).board == after);
    if !standard_moves(t).contains(m) {
        crate::laws::lemma_drops(s);
        lemma_drop_keeps_kings(s, m, color);
    } else if color == s.turn {
        crate::laws::lemma_standard_moves(t);
        match m {
            Move::Normal { role, .. } => {
                if role == Role::King {
                    crate::safety::lemma_king_after(t, m);
                } else {
                    lemma_our_king_stays(t, m);
                }
            },
            Move::Castle { king, rook } => {
                let side = lemma_castle_side(t, m);
                let kt = 8 * (king.idx() / 8) + side.king_to_file_spec().idx();
                lemma_after_castle(t, m, kt);
                lemma_piece_at(after, kt);
                lemma_set_bits(after.by_color(color), after.by_role(Role::King), kt);
                lemma_has_kings(after, color, kt);
            },
            _ => {
                lemma_our_king_stays(t, m);
            },
        }
    } else {
        lemma_their_king_stays(t, m);
    }
}

/// Facts about the sets of the starting boards of standard chess and of
/// Horde.
proof fn lemma_start_bits(x: u64)
    by (bit_vector)
    requires
        x < 64,
    ensures
        (0xffffu64 >> x) & 1 == 1 ==> x < 40,
        (0x0000_0066_ffff_ffffu64 >> x) & 1 == 1 ==> x < 40,
        48 <= x ==> (0xffff_0000_0000_0000u64 >> x) & 1 == 1,
        48 <= x ==> ((0xffffu64 | 0xffff_0000_0000_0000u64) >> x) & 1 == 1,
        48 <= x ==> ((0x0000_0066_ffff_ffffu64 | 0xffff_0000_0000_0000u64) >> x) & 1 == 1,
        x == 0 || x == 7 || x == 56 || x == 63 ==> (0x8100_0000_0000_0081u64 >> x) & 1 == 1 && (
        0x00ff_0000_0000_ff00u64 >> x) & 1 != 1 && (0x4200_0000_0000_0042u64 >> x) & 1 != 1 && (
        0x2400_0000_0000_0024u64 >> x) & 1 != 1,
        x == 56 || x == 63 ==> (0x8100_0000_0000_0000u64 >> x) & 1 == 1 && (
        0x00ff_0066_ffff_ffffu64 >> x) & 1 != 1 && (0x4200_0000_0000_0000u64 >> x) & 1 != 1 && (
        0x2400_0000_0000_0000u64 >> x) & 1 != 1 && (0xffffu64 >> x) & 1 != 1 && (
        0x0000_0066_ffff_ffffu64 >> x) & 1 != 1,
        x == 0 || x == 7 ==> (0xffffu64 >> x) & 1 == 1,
        x == 5 || x == 6 ==> (0x60u64 >> x) & 1 == 1,
        x == 2 || x == 3 ==> (0x0eu64 >> x) & 1 == 1,
        x == 61 || x == 62 ==> (0x6000_0000_0000_0000u64 >> x) & 1 == 1,
        x == 58 || x == 59 ==> (0x0e00_0000_0000_0000u64 >> x) & 1 == 1,
{
}

/// On the starting boards of standard chess and of Horde no white piece
/// attacks the black king.
pub proof fn lemma_start_safe(variant: Variant)
    requires
        plays_standard(variant),
        variant != Variant::RacingKings,
    ensures
        crate::reachable::initial(variant).board.king_of(Color::Black) == Some(Square::at(60)),
        king_safe(crate::reachable::initial(variant).board, Color::Black),
{
    broadcast use Square::lemma_idx_at;

    let board = crate::reachable::initial(variant).board;
    let occupied = board.occupied();
    crate::board::lemma_start_boards_wf();
    let black = kings_of(board, Color::Black);
    assert(0xffff_0000_0000_0000u64 & 0x1000_0000_0000_0010u64 == 0x1000_0000_0000_0000u64
        && 0xffff_0000_0000_0000u64 & 0x1000_0000_0000_0000u64 == 0x1000_0000_0000_0000u64
        && 0x1000_0000_0000_0000u64 == 1u64 << 60) by (bit_vector);
    assert(black == bit(60));
    lemma_single(60, 60);
    assert forall|j: int| 0 <= j < 64 && has_bit(black, j) implies j == 60 by {
        lemma_single(60, j);
    }
    lemma_only_bit(black, 60);
    lemma_start_bits(51);
    lemma_start_bits(52);
    lemma_start_bits(53);
    assert forall|x: int| 0 <= x < 64 implies !threat(board, 60, Color::White, occupied, x) by {
        if threat(board, 60, Color::White, occupied, x) {
            lemma_start_bits(x as u64);
            assert(x < 40);
            match board.role_at(x) {
                Some(Role::Pawn) => {
                    crate::laws::lemma_pawn_attack(Color::Black, 60, x);
                },
                Some(Role::Knight) => {
                    crate::line_laws::lemma_knight_step(60, x);
                },
                Some(Role::King) => {
                    crate::line_laws::lemma_king_step(60, x);
                },
                _ => {
                    let along = has_bit(crate::attacks::rook_attacks_spec(60, occupied), x);
                    let w = crate::line_laws::lemma_line_some(along, 60, occupied, x);
                    crate::attack_laws::lemma_slide_one(60, occupied, w.delta, x);
                },
            }
        }
    }
    crate::threats::lemma_no_threat(board, 60, Color::White, occupied);
}

/// Facts about the sets of the starting board of Racing Kings.
proof fn lemma_racing_bits(x: u64)
    by (bit_vector)
    requires
        x < 64,
    ensures
        (0x0f0fu64 >> x) & 1 == 1 ==> x % 8 <= 3 && x / 8 <= 1,
        (0xf0f0u64 >> x) & 1 == 1 ==> x % 8 >= 4 && x / 8 <= 1,
        x < 16 ==> ((0xf0f0u64 | 0x0f0fu64) >> x) & 1 == 1,
        0xf0f0u64 & 0x8100u64 == 1u64 << 15,
        0x0f0fu64 & 0x8100u64 == 1u64 << 8,
{
}

/// On a board on which the pieces of a color stand on the first two ranks
/// and at least three files from a square of the second rank, with the
/// three squares beside that square occupied, no piece of the color
/// threatens the square.
proof fn lemma_corner_safe(board: BoardView, k: int, by: Color, x: int)
    requires
        board.wf(),
        k == 15 || k == 8,
        0 <= x < 64,
        board.color_at(x) == Some(by) ==> x / 8 <= 1 && (if k == 15 {
            x % 8 <= 3
        } else {
            x % 8 >= 4
        }),
        has_bit(board.occupied(), if k == 15 { 14int } else { 9 }),
        has_bit(board.occupied(), if k == 15 { 6int } else { 1 }),
    ensures
        !threat(board, k, by, board.occupied(), x),
{
    let occupied = board.occupied();
    if threat(board, k, by, occupied, x) {
        match board.role_at(x) {
            Some(Role::Pawn) => {
                crate::laws::lemma_pawn_attack(by.other_spec(), k, x);
            },
            Some(Role::Knight) => {
                crate::line_laws::lemma_knight_step(k, x);
            },
            Some(Role::King) => {
                crate::line_laws::lemma_king_step(k, x);
            },
            _ => {
                let along = has_bit(crate::attacks::rook_attacks_spec(k, occupied), x);
                let w = crate::line_laws::lemma_line_some(along, k, occupied, x);
                crate::attack_laws::lemma_slide_one(k, occupied, w.delta, x);
                if 0 <= k + w.delta < 64 && has_bit(slide(k + w.delta, occupied, w.delta), x) {
                    crate::ray_laws::lemma_slide_toward(
                        k + w.delta,
                        occupied,
                        w.delta,
                        w.dr,
                        w.df,
                        x,
                    );
                }
            },
        }
    }
}

/// In the starting position of Racing Kings no king is attacked.
pub proof fn lemma_racing_start_safe()
    ensures
        quiet(crate::reachable::initial(Variant::RacingKings)),
        guarded(crate::reachable::initial(Variant::RacingKings)),
        exactly_one(kings_of(crate::reachable::initial(Variant::RacingKings).board, Color::White)),
        exactly_one(kings_of(crate::reachable::initial(Variant::RacingKings).board, Color::Black)),
{
    broadcast use Square::lemma_idx_at;

    let s = crate::reachable::initial(Variant::RacingKings);
    let board = s.board;
    let occupied = board.occupied();
    crate::board::lemma_start_boards_wf();
    lemma_racing_bits(0);
    let white = kings_of(board, Color::White);
    let black = kings_of(board, Color::Black);
    assert(white == bit(15));
    assert(black == bit(8));
    lemma_single(15, 15);
    lemma_single(8, 8);
    assert forall|j: int| 0 <= j < 64 && has_bit(white, j) implies j == 15 by {
        lemma_single(15, j);
    }
    assert forall|j: int| 0 <= j < 64 && has_bit(black, j) implies j == 8 by {
        lemma_single(8, j);
    }
    lemma_only_bit(white, 15);
    lemma_only_bit(black, 8);
    lemma_racing_bits(14);
    lemma_racing_bits(6);
    lemma_racing_bits(9);
    lemma_racing_bits(1);
    assert forall|x: int| 0 <= x < 64 implies !threat(board, 15, Color::Black, occupied, x) by {
        lemma_racing_bits(x as u64);
        lemma_corner_safe(board, 15, Color::Black, x);
    }
    assert forall|x: int| 0 <= x < 64 implies !threat(board, 8, Color::White, occupied, x) by {
        lemma_racing_bits(x as u64);
        lemma_corner_safe(board, 8, Color::White, x);
    }
    crate::threats::lemma_no_threat(board, 15, Color::Black, occupied);
    crate::threats::lemma_no_threat(board, 8, Color::White, occupied);
}

/// The positions from which the games of standard chess, King of the
/// Hill, Three-Check, Crazyhouse, Racing Kings and Horde start are
/// secure.
pub proof fn lemma_initial_secure(variant: Variant)
    requires
        plays_standard(variant),
    ensures
        secure(crate::reachable::initial(variant)),
{
    broadcast use Square::lemma_idx_at;

    let s = crate::reachable::initial(variant);
    crate::reachable::lemma_initial_sound(variant);
    crate::board::lemma_start_boards_wf();
    if variant == Variant::RacingKings {
        lemma_racing_start_safe();
        return ;
    }
    lemma_start_safe(variant);
    lemma_start_bits(0);
    lemma_start_bits(7);
    lemma_start_bits(56);
    lemma_start_bits(63);
    lemma_start_bits(2);
    lemma_start_bits(3);
    lemma_start_bits(5);
    lemma_start_bits(6);
    lemma_start_bits(58);
    lemma_start_bits(59);
    lemma_start_bits(61);
    lemma_start_bits(62);
    if variant != Variant::Horde {
        let white = kings_of(s.board, Color::White);
        assert(0xffffu64 & 0x1000_0000_0000_0010u64 == 0x10u64 && 0x10u64 == 1u64 << 4)
            by (bit_vector);
        assert(white == bit(4));
        lemma_single(4, 4);
        assert forall|j: int| 0 <= j < 64 && has_bit(white, j) implies j == 4 by {
            lemma_single(4, j);
        }
        lemma_only_bit(white, 4);
        assert(s.board.king_of(Color::White) == Some(Square::at(4)));
        assert(castle_fit(s, Color::White, CastlingSide::KingSide));
        assert(castle_fit(s, Color::White, CastlingSide::QueenSide));
    }
    assert(castle_fit(s, Color::Black, CastlingSide::KingSide));
    assert(castle_fit(s, Color::Black, CastlingSide::QueenSide));
}

/// The rook with which a color castles in a setup is a rook of that color
/// on its back rank, where its king stands too.
pub proof fn lemma_castling_rook(board: BoardView, rights: u64, color: Color, side: CastlingSide)
    requires
        board.wf(),
    ensures
        crate::setup::castling_rook(board, rights, color, side) matches Some(r) ==> (board.king_of(
            color,
        ) matches Some(k) && k.idx() / 8 == CastlingSide::backrank_idx(color) && 0 <= r.idx() < 64
            && r.idx() / 8 == CastlingSide::backrank_idx(color) && board.role_at(r.idx()) == Some(
            Role::Rook,
        ) && board.color_at(r.idx()) == Some(color)),
{
    broadcast use Square::lemma_idx_at;

    let back = CastlingSide::backrank_idx(color);
    let candidates = rights & board.rooks & board.by_color(color) & crate::bitboard::rank_bits(
        back,
    );
    match crate::setup::castling_rook(board, rights, color, side) {
        None => {},
        Some(rook) => {
            lemma_lsb(candidates);
            crate::threats::lemma_msb(candidates);
            let r = rook.idx();
            assert(has_bit(candidates, r));
            lemma_set_bits(
                rights & board.rooks & board.by_color(color),
                crate::bitboard::rank_bits(back),
                r,
            );
            lemma_set_bits(rights & board.rooks, board.by_color(color), r);
            lemma_set_bits(rights, board.rooks, r);
            crate::magic::lemma_lines(r, back);
            lemma_piece_at(board, r);
            assert(has_bit(board.by_role(Role::Rook), r));
            assert(has_bit(board.by_color(color), r));
        },
    }
}

/// The squares that king and rook reach when they castle are on the path
/// that has to be empty, unless king or rook stand there.
pub proof fn lemma_castling_path(k: int, r: int, color: Color, side: CastlingSide)
    requires
        0 <= k < 64,
        0 <= r < 64,
    ensures
        ({
            let rt = side.rook_to_spec(color).idx();
            let kt = side.king_to_spec(color).idx();
            let path = crate::setup::castling_path(k, r, color, side);
            &&& (rt == k || rt == r || has_bit(path, rt))
            &&& (kt == k || kt == r || has_bit(path, kt))
        }),
{
    broadcast use Square::lemma_idx_at;

    let rt = side.rook_to_spec(color).idx();
    let kt = side.king_to_spec(color).idx();
    let rook_way = crate::attacks::between_spec(r, rt) | bit(rt);
    let king_way = crate::attacks::between_spec(k, kt) | bit(kt);
    lemma_set_bits(crate::attacks::between_spec(r, rt), bit(rt), rt);
    lemma_set_bits(crate::attacks::between_spec(k, kt), bit(kt), kt);
    lemma_set_bits(rook_way, king_way, rt);
    lemma_set_bits(rook_way, king_way, kt);
    lemma_set_bits(rook_way | king_way, !bit(k), rt);
    lemma_set_bits(rook_way | king_way, !bit(k), kt);
    lemma_set_bits((rook_way | king_way) & !bit(k), !bit(r), rt);
    lemma_set_bits((rook_way | king_way) & !bit(k), !bit(r), kt);
    lemma_set_bits(bit(k), 0, rt);
    lemma_set_bits(bit(k), 0, kt);
    lemma_set_bits(bit(r), 0, rt);
    lemma_set_bits(bit(r), 0, kt);
    lemma_single(k, rt);
    lemma_single(k, kt);
    lemma_single(r, rt);
    lemma_single(r, kt);
}

/// The castling rights that a setup gives go with kings and rooks on
/// their squares.
pub proof fn lemma_setup_castle_fit(
    variant: Variant,
    sv: crate::setup::SetupView,
    mode: Option<crate::types::CastlingMode>,
    color: Color,
    side: CastlingSide,
)
    requires
        sv.board.wf(),
        plays_standard(variant),
    ensures
        castle_fit(crate::rules::setup_state(variant, sv, mode), color, side),
{
    let s = crate::rules::setup_state(variant, sv, mode);
    lemma_castling_rook(sv.board, sv.castling_rights, color, side);
    crate::laws::lemma_king_of(sv.board, color);
    match s.castles.rook_spec(color, side) {
        None => {},
        Some(rook) => {
            assert(Some(rook) == crate::setup::castling_rook(
                sv.board,
                sv.castling_rights,
                color,
                side,
            ));
            let king = sv.board.king_of(color).unwrap();
            lemma_castling_path(king.idx(), rook.idx(), color, side);
            assert(s.castles.path_spec(color, side).0 == crate::setup::castling_path(
                king.idx(),
                rook.idx(),
                color,
                side,
            ));
        },
    }
}

/// The en passant square of a setup without a flag is one that a pawn has
/// just passed, as far as the squares go: it is empty, and a pawn of the
/// other side stands behind it.
pub proof fn lemma_setup_ep_fit(
    variant: Variant,
    sv: crate::setup::SetupView,
    mode: Option<crate::types::CastlingMode>,
)
    requires
        sv.board.wf(),
        sv.ep_square matches Some(e) ==> 0 <= e.idx() < 64,
        crate::rules::setup_errors(variant, sv, mode).is_empty_spec(),
        plays_standard(variant),
        crate::legality::ep_checks_fit(crate::rules::setup_state(variant, sv, mode)),
    ensures
        ep_fit(crate::rules::setup_state(variant, sv, mode)),
{
    broadcast use Square::lemma_idx_at;

    let s = crate::rules::setup_state(variant, sv, mode);
    match s.ep_square {
        None => {},
        Some(e) => {
            let t = crate::position::chess_part(s);
            assert(!crate::rules::bad_ep(s, e)) by {
                assert(crate::rules::bad_ep(t, e) == crate::rules::bad_ep(s, e));
            }
            let v = e.idx() - 8 * forward(s.turn);
            assert(crate::movegen::back(s.turn, 8) == -8 * forward(s.turn));
            lemma_piece_at(s.board, v);
            lemma_set_bits(crate::position::them(s), s.board.pawns, v);
            assert(has_bit(s.board.by_role(Role::Pawn), v));
            assert(has_bit(s.board.by_color(s.turn.other_spec()), v));
        },
    }
}

/// A setup without a flag, with a well formed board, gives a secure
/// position, if no pawn, knight or king gives check where an en passant
/// square is set, but the pawn behind that square.
pub proof fn lemma_setup_secure(
    variant: Variant,
    sv: crate::setup::SetupView,
    mode: Option<crate::types::CastlingMode>,
)
    requires
        sv.board.wf(),
        sv.ep_square matches Some(e) ==> 0 <= e.idx() < 64,
        crate::rules::setup_errors(variant, sv, mode).is_empty_spec(),
        plays_standard(variant),
        crate::legality::ep_checks_fit(crate::rules::setup_state(variant, sv, mode)),
    ensures
        secure(crate::rules::setup_state(variant, sv, mode)),
{
    crate::reachable::lemma_setup_sound(variant, sv, mode);
    lemma_setup_ep_fit(variant, sv, mode);
    lemma_setup_castle_fit(variant, sv, mode, Color::White, CastlingSide::KingSide);
    lemma_setup_castle_fit(variant, sv, mode, Color::White, CastlingSide::QueenSide);
    lemma_setup_castle_fit(variant, sv, mode, Color::Black, CastlingSide::KingSide);
    lemma_setup_castle_fit(variant, sv, mode, Color::Black, CastlingSide::QueenSide);
}

/// True if the set holds exactly one square.
pub open spec fn exactly_one(x: u64) -> bool {
    x != 0 && crate::bitboard::drop_lsb(x) == 0
}

/// A side that has exactly one king in a secure position has exactly one
/// king after a legal move. So the side of Horde that starts with a king
/// has exactly one king throughout the game.
pub proof fn lemma_play_one_king(s: State, m: Move, color: Color)
    requires
        secure(s),
        crate::rules::legal_moves_spec(s).contains(m),
        exactly_one(kings_of(s.board, color)),
    ensures
        exactly_one(kings_of(crate::rules::play_spec(s, m).board, color)),
{
    lemma_play_keeps_kings(s, m, color);
    lemma_play_secure(s, m);
}

/// In the starting positions of standard chess, King of the Hill,
/// Three-Check, Crazyhouse and Racing Kings each side has exactly one
/// king. In that of Horde black has exactly one king and no pawn on the
/// first or last rank, and white has no king.
pub proof fn lemma_initial_kings(variant: Variant)
    requires
        plays_standard(variant),
    ensures
        exactly_one(kings_of(crate::reachable::initial(variant).board, Color::Black)),
        variant != Variant::Horde ==> exactly_one(
            kings_of(crate::reachable::initial(variant).board, Color::White),
        ),
        variant == Variant::Horde ==> kings_of(
            crate::reachable::initial(variant).board,
            Color::White,
        ) == 0 && crate::laws::pawns_of(crate::reachable::initial(variant).board, Color::Black)
            & crate::bitboard::BACKRANKS == 0,
{
    if variant == Variant::RacingKings {
        lemma_racing_start_safe();
    } else {
        lemma_initial_secure(variant);
        lemma_start_safe(variant);
        assert(0xffffu64 & 0x1000_0000_0000_0010u64 == 0x10u64 && 0x0000_0066_ffff_ffffu64
            & 0x1000_0000_0000_0000u64 == 0 && (0xffff_0000_0000_0000u64
            & 0x00ff_0066_ffff_ffffu64) & 0xff00_0000_0000_00ffu64 == 0) by (bit_vector);
    }
}

/// A color whose pawns stand neither on the first nor on the last rank
/// of a sound position has no pawn there after a legal move. So black
/// has no pawn on these ranks throughout a game of Horde.
pub proof fn lemma_play_keeps_pawns_off(s: State, m: Move, color: Color)
    requires
        crate::reachable::sound(s),
        crate::rules::legal_moves_spec(s).contains(m),
        crate::laws::pawns_of(s.board, color) & crate::bitboard::BACKRANKS == 0,
    ensures
        crate::laws::pawns_of(crate::rules::play_spec(s, m).board, color)
            & crate::bitboard::BACKRANKS == 0,
{
    crate::laws::lemma_legal_moves(s);
    if m is EnPassant {
        crate::reachable::lemma_legal_en_passant(s, m);
    }
    crate::laws::lemma_play_pawns(s, m, color);
}

} // verus!
