//! What holds of the moves that are generated: each follows the way its
//! piece moves, and none comes twice.

use vstd::prelude::*;
use vstd::seq_lib::lemma_no_dup_in_concat;
use crate::attacks::{
    attacks_spec, between_spec, king_attacks_spec, pawn_attacks_spec, slide, sliding_attacks_spec,
    ALL_SQUARES,
};
use crate::bitboard::{
    bit, drop_lsb, has_bit, lemma_drop_lsb_bits, lemma_lsb, lemma_no_bits, lsb,
    relative_rank_bits, relative_shift_spec, BACKRANKS,
};
use crate::board::BoardView;
use crate::color::Color;
use crate::magic::{can_step, lemma_lines, lemma_set_bits, lemma_step};
use crate::movegen::{
    back, castling, double_moves, each_capturing_pawn, each_en_passant, each_piece,
    each_promotion_target, each_push_target, each_safe_king_target, each_target, en_passant,
    for_each, moves_to, non_king, our_pawns, pawn_capture_targets, pawn_captures, pawn_moves,
    pawn_pushes, piece_moves, promotions, safe_king, seventh, single_moves,
};
use crate::rules::{
    antichess_gen, atomic_keep_fn, atomic_pseudo, drops, each_drop_square, each_pawn_drop,
    is_queen_promotion, king_promotion_fn, legal_moves_spec, no_check_fn, piece_drop, play_spec,
    put_squares, queen_promotion_fn, racing_end, setup_state, with_king_promotions,
};
use crate::setup::Castles;
use crate::square::Square;
use crate::position::{
    both_castlings, checkers, chess_part, do_move_spec, evasion_moves, king, pin_filtered,
    safe_king_moves, standard_moves, them, us, State,
};
use crate::types::{CastlingSide, Move, Piece, Role, Variant};

verus! {

/// A move of a concatenation is in one of its parts.
pub proof fn lemma_concat_member(a: Seq<Move>, b: Seq<Move>, m: Move)
    requires
        (a + b).contains(m),
    ensures
        a.contains(m) || b.contains(m),
{
    let k = choose|k: int| 0 <= k < (a + b).len() && (a + b)[k] == m;
    if k < a.len() {
        assert(a[k] == m);
    } else {
        assert(b[k - a.len()] == m);
    }
}

/// The moves of the parts are in the concatenation.
pub proof fn lemma_member_concat(a: Seq<Move>, b: Seq<Move>, m: Move)
    requires
        a.contains(m) || b.contains(m),
    ensures
        (a + b).contains(m),
{
    if a.contains(m) {
        let k = choose|k: int| 0 <= k < a.len() && a[k] == m;
        assert((a + b)[k] == m);
    } else {
        let k = choose|k: int| 0 <= k < b.len() && b[k] == m;
        assert((a + b)[k + a.len()] == m);
    }
}

/// A move that is made for the squares of a set is made for one of them.
pub proof fn lemma_for_each_member(set: u64, f: spec_fn(Square) -> Seq<Move>, m: Move) -> (i: int)
    requires
        for_each(set, f).contains(m),
    ensures
        has_bit(set, i),
        f(Square::at(i)).contains(m),
    decreases set,
{
    if set == 0 {
        assert(for_each(set, f).len() == 0);
        0
    } else {
        lemma_lsb(set);
        let head = f(Square::at(lsb(set)));
        let tail = for_each(drop_lsb(set), f);
        lemma_concat_member(head, tail, m);
        if head.contains(m) {
            lsb(set)
        } else {
            let i = lemma_for_each_member(drop_lsb(set), f, m);
            lemma_drop_lsb_bits(set, i);
            i
        }
    }
}

/// Where the moves made for one square do not repeat, and each tells by
/// `key` for which square it was made, no move is made twice.
pub proof fn lemma_for_each_no_dup(
    set: u64,
    f: spec_fn(Square) -> Seq<Move>,
    key: spec_fn(Move) -> Square,
)
    requires
        forall|i: int| has_bit(set, i) ==> (#[trigger] f(Square::at(i))).no_duplicates(),
        forall|i: int, m: Move|
            has_bit(set, i) && (#[trigger] f(Square::at(i)).contains(m)) ==> key(m) == Square::at(
                i,
            ),
    ensures
        for_each(set, f).no_duplicates(),
    decreases set,
{
    broadcast use Square::lemma_idx_at;

    if set != 0 {
        lemma_lsb(set);
        let rest = drop_lsb(set);
        let head = f(Square::at(lsb(set)));
        let tail = for_each(rest, f);
        assert forall|i: int| has_bit(rest, i) implies (#[trigger] f(
            Square::at(i),
        )).no_duplicates() by {
            lemma_drop_lsb_bits(set, i);
        }
        assert forall|i: int, m: Move|
            has_bit(rest, i) && (#[trigger] f(Square::at(i)).contains(m)) implies key(m)
            == Square::at(i) by {
            lemma_drop_lsb_bits(set, i);
        }
        lemma_for_each_no_dup(rest, f, key);
        assert forall|a: int, b: int| 0 <= a < head.len() && 0 <= b < tail.len() implies head[a]
            != tail[b] by {
            if head[a] == tail[b] {
                let m = head[a];
                assert(tail.contains(m));
                assert(head.contains(m));
                let i = lemma_for_each_member(rest, f, m);
                lemma_drop_lsb_bits(set, i);
                assert(f(Square::at(i)).contains(m));
                assert(key(m) == Square::at(i));
                assert(f(Square::at(lsb(set))).contains(m));
                assert(key(m) == Square::at(lsb(set)));
                assert(Square::at(i).idx() == i);
                assert(Square::at(lsb(set)).idx() == lsb(set));
            }
        }
        lemma_no_dup_in_concat(head, tail);
    }
}

/// Picking from moves that do not repeat gives moves that do not repeat.
pub proof fn lemma_filter_no_dup(s: Seq<Move>, keep: spec_fn(Move) -> bool)
    requires
        s.no_duplicates(),
    ensures
        s.filter(keep).no_duplicates(),
        forall|m: Move| #[trigger] s.filter(keep).contains(m) ==> s.contains(m) && keep(m),
    decreases s.len(),
{
    reveal(Seq::filter);
    if s.len() > 0 {
        let front = s.drop_last();
        let last = s.last();
        lemma_filter_no_dup(front, keep);
        let sub = front.filter(keep);
        assert forall|m: Move| #[trigger] s.filter(keep).contains(m) implies s.contains(m) && keep(
            m,
        ) by {
            let k = choose|k: int| 0 <= k < s.filter(keep).len() && s.filter(keep)[k] == m;
            if keep(last) && k == sub.len() {
                assert(s[s.len() - 1] == m);
            } else {
                assert(sub[k] == m);
                assert(sub.contains(m));
                let j = choose|j: int| 0 <= j < front.len() && front[j] == m;
                assert(s[j] == m);
            }
        }
        if keep(last) {
            assert forall|a: int, b: int|
                0 <= a < sub.push(last).len() && 0 <= b < sub.push(last).len() && a
                    != b implies sub.push(last)[a] != sub.push(last)[b] by {
                if a == sub.len() || b == sub.len() {
                    let c = if a == sub.len() {
                        b
                    } else {
                        a
                    };
                    assert(sub.contains(sub[c]));
                    let j = choose|j: int| 0 <= j < front.len() && front[j] == sub[c];
                    assert(s[j] == sub[c]);
                    assert(s[s.len() - 1] == last);
                }
            }
        }
    }
}

/// The set of a single square holds that square and no other, and the set
/// of all squares holds every square.
pub proof fn lemma_single(i: int, j: int)
    requires
        0 <= i < 64,
        0 <= j < 64,
    ensures
        has_bit(bit(i), j) <==> i == j,
        has_bit(ALL_SQUARES, j),
        has_bit(BACKRANKS, j) <==> (j / 8 == 0 || j / 8 == 7),
{
    let a = i as u64;
    let b = j as u64;
    assert(a < 64 && b < 64 ==> ((((1u64 << a) >> b) & 1 == 1) <==> a == b)
        && (0xffff_ffff_ffff_ffffu64 >> b) & 1 == 1 && (((0xff00_0000_0000_00ffu64 >> b) & 1 == 1)
        <==> (b / 8 == 0 || b / 8 == 7))) by (bit_vector);
}

/// True for a move of a piece of `role` from `from` that captures what
/// stands on its target and does not promote.
pub open spec fn is_normal(board: BoardView, role: Role, from: Square, m: Move) -> bool {
    m matches Move::Normal { role: r, from: f, capture, to, promotion } && r == role && f == from
        && capture == board.role_at(to.idx()) && promotion.is_none() && 0 <= to.idx() < 64
}

/// The target of a move.
pub open spec fn target_key() -> spec_fn(Move) -> Square {
    |m: Move| m.to_spec()
}

/// The square from which a move starts, or its target for a drop.
pub open spec fn origin_key() -> spec_fn(Move) -> Square {
    |m: Move|
        match m.from_spec() {
            Some(from) => from,
            None => m.to_spec(),
        }
}

/// The moves of a piece from a square to some targets are moves of that
/// piece from that square to these targets, and there is one for each
/// target.
pub proof fn lemma_moves_to(board: BoardView, role: Role, from: Square, targets: u64)
    ensures
        moves_to(board, role, from, targets).no_duplicates(),
        forall|m: Move| #[trigger]
            moves_to(board, role, from, targets).contains(m) ==> is_normal(board, role, from, m)
                && has_bit(targets, m.to_spec().idx()),
{
    broadcast use Square::lemma_idx_at;

    let f = each_target(board, role, from);
    assert forall|i: int, m: Move|
        has_bit(targets, i) && (#[trigger] f(Square::at(i)).contains(m)) implies target_key()(m)
        == Square::at(i) by {
        assert(f(Square::at(i))[0] == m);
    }
    lemma_for_each_no_dup(targets, f, target_key());
    assert forall|m: Move| #[trigger]
        moves_to(board, role, from, targets).contains(m) implies is_normal(board, role, from, m)
        && has_bit(targets, m.to_spec().idx()) by {
        let i = lemma_for_each_member(targets, f, m);
        assert(f(Square::at(i))[0] == m);
    }
}

/// True for a move of a piece like `piece` to a square of `target` that it
/// attacks.
pub open spec fn is_piece_move(board: BoardView, piece: Piece, target: u64, m: Move) -> bool {
    m matches Move::Normal { from, to, .. } && is_normal(board, piece.role, from, m) && 0
        <= from.idx() < 64 && has_bit(board.by_piece(piece), from.idx()) && has_bit(
        attacks_spec(from.idx(), piece, board.occupied()),
        to.idx(),
    ) && has_bit(target, to.idx())
}

/// The moves of the pieces like `piece` are moves of such pieces, and none
/// comes twice.
pub proof fn lemma_piece_moves(board: BoardView, piece: Piece, target: u64)
    ensures
        piece_moves(board, piece, target).no_duplicates(),
        forall|m: Move| #[trigger]
            piece_moves(board, piece, target).contains(m) ==> is_piece_move(
                board,
                piece,
                target,
                m,
            ),
{
    broadcast use Square::lemma_idx_at;

    let f = each_piece(board, piece, target);
    let set = board.by_piece(piece);
    assert forall|i: int| has_bit(set, i) implies (#[trigger] f(Square::at(i))).no_duplicates() by {
        lemma_moves_to(
            board,
            piece.role,
            Square::at(i),
            attacks_spec(Square::at(i).idx(), piece, board.occupied()) & target,
        );
    }
    assert forall|i: int, m: Move|
        has_bit(set, i) && (#[trigger] f(Square::at(i)).contains(m)) implies origin_key()(m)
        == Square::at(i) by {
        lemma_moves_to(
            board,
            piece.role,
            Square::at(i),
            attacks_spec(Square::at(i).idx(), piece, board.occupied()) & target,
        );
    }
    lemma_for_each_no_dup(set, f, origin_key());
    assert forall|m: Move| #[trigger]
        piece_moves(board, piece, target).contains(m) implies is_piece_move(
        board,
        piece,
        target,
        m,
    ) by {
        let i = lemma_for_each_member(set, f, m);
        let from = Square::at(i);
        let reach = attacks_spec(from.idx(), piece, board.occupied());
        lemma_moves_to(board, piece.role, from, reach & target);
        lemma_set_bits(reach, target, m.to_spec().idx());
    }
}

/// The direction in which the pawns of a color move: up the ranks for
/// white, down for black.
pub open spec fn forward(turn: Color) -> int {
    if turn == Color::White {
        1
    } else {
        -1
    }
}

/// A piece that steps on a full board reaches the next square and no
/// other.
pub proof fn lemma_step_member(s: int, delta: int, i: int)
    requires
        has_bit(slide(s, ALL_SQUARES, delta), i),
    ensures
        can_step(s, delta),
        i == s + delta,
{
    if can_step(s, delta) {
        lemma_single(s + delta, s + delta);
        if 0 <= i < 64 {
            lemma_single(s + delta, i);
        }
    } else {
        lemma_no_bits(i);
    }
}

/// The squares reached along two steps, written out.
pub proof fn lemma_two_steps(s: int, occupied: u64, deltas: Seq<i8>)
    requires
        deltas.len() == 2,
    ensures
        sliding_attacks_spec(s, occupied, deltas) == (0 | slide(s, occupied, deltas[0] as int))
            | slide(s, occupied, deltas[1] as int),
{
    let d1 = deltas.drop_last();
    let d0 = d1.drop_last();
    assert(d0.len() == 0);
    assert(sliding_attacks_spec(s, occupied, d0) == 0);
    assert(sliding_attacks_spec(s, occupied, d1) == sliding_attacks_spec(s, occupied, d0) | slide(
        s,
        occupied,
        d1.last() as int,
    ));
}

/// A pawn attacks squares of the next rank, on a file beside its own.
pub proof fn lemma_pawn_attack(turn: Color, s: int, i: int)
    requires
        0 <= s < 64,
        has_bit(pawn_attacks_spec(turn, s), i),
    ensures
        0 <= i < 64,
        i / 8 == s / 8 + forward(turn),
        i % 8 == s % 8 + 1 || i % 8 == s % 8 - 1,
{
    let deltas = if turn == Color::White {
        crate::attacks::white_pawn_deltas()
    } else {
        crate::attacks::black_pawn_deltas()
    };
    lemma_two_steps(s, ALL_SQUARES, deltas);
    let a = slide(s, ALL_SQUARES, deltas[0] as int);
    let b = slide(s, ALL_SQUARES, deltas[1] as int);
    lemma_set_bits(0 | a, b, i);
    lemma_set_bits(0, a, i);
    lemma_no_bits(i);
    if has_bit(a, i) {
        lemma_step_member(s, deltas[0] as int, i);
        lemma_step(s, deltas[0] as int, forward(turn), if turn == Color::White { -1int } else { 1 });
    } else {
        lemma_step_member(s, deltas[1] as int, i);
        lemma_step(s, deltas[1] as int, forward(turn), if turn == Color::White { 1int } else { -1 });
    }
}

/// True for a role to which a pawn is promoted in standard chess.
pub open spec fn is_promotion_role(role: Role) -> bool {
    role == Role::Queen || role == Role::Rook || role == Role::Bishop || role == Role::Knight
}

/// The four promotions differ, and each is a pawn move from `from` to `to`.
pub proof fn lemma_promotions(from: Square, to: Square, capture: Option<Role>)
    ensures
        promotions(from, to, capture).no_duplicates(),
        forall|m: Move| #[trigger]
            promotions(from, to, capture).contains(m) ==> (m matches Move::Normal {
                role,
                from: f,
                capture: c,
                to: t,
                promotion: Some(p),
            } && role == Role::Pawn && f == from && c == capture && t == to && is_promotion_role(
                p,
            )),
{
    let s = promotions(from, to, capture);
    assert forall|m: Move| #[trigger] s.contains(m) implies (m matches Move::Normal {
        role,
        from: f,
        capture: c,
        to: t,
        promotion: Some(p),
    } && role == Role::Pawn && f == from && c == capture && t == to && is_promotion_role(p)) by {
        let k = choose|k: int| 0 <= k < s.len() && s[k] == m;
        if k == 0 {
        } else if k == 1 {
        } else if k == 2 {
        } else {
        }
    }
}

/// True for a capture by a pawn of `turn` to a square of `target`: a
/// promotion if `promote` is set.
pub open spec fn is_pawn_capture(
    board: BoardView,
    turn: Color,
    target: u64,
    promote: bool,
    m: Move,
) -> bool {
    m matches Move::Normal { role, from, capture, to, promotion } && role == Role::Pawn && 0
        <= from.idx() < 64 && 0 <= to.idx() < 64 && capture == board.role_at(to.idx()) && has_bit(
        pawn_capture_targets(board, turn, from, target),
        to.idx(),
    ) && (if promote {
        promotion matches Some(p) && is_promotion_role(p)
    } else {
        promotion.is_none()
    })
}

/// The captures of the pawns on `pawns` are captures by these pawns, and
/// none comes twice.
pub proof fn lemma_pawn_captures(
    board: BoardView,
    turn: Color,
    pawns: u64,
    target: u64,
    promote: bool,
)
    ensures
        pawn_captures(board, turn, pawns, target, promote).no_duplicates(),
        forall|m: Move| #[trigger]
            pawn_captures(board, turn, pawns, target, promote).contains(m) ==> is_pawn_capture(
                board,
                turn,
                target,
                promote,
                m,
            ) && has_bit(pawns, m.from_spec().unwrap().idx()),
{
    broadcast use Square::lemma_idx_at;

    let f = each_capturing_pawn(board, turn, target, promote);
    assert forall|i: int| has_bit(pawns, i) implies {
        &&& (#[trigger] f(Square::at(i))).no_duplicates()
        &&& forall|m: Move| #[trigger]
            f(Square::at(i)).contains(m) ==> is_pawn_capture(board, turn, target, promote, m)
                && m.from_spec() == Some(Square::at(i))
    } by {
        let from = Square::at(i);
        let targets = pawn_capture_targets(board, turn, from, target);
        if promote {
            let g = each_promotion_target(board, from);
            assert forall|j: int| has_bit(targets, j) implies (#[trigger] g(
                Square::at(j),
            )).no_duplicates() by {
                lemma_promotions(from, Square::at(j), board.role_at(Square::at(j).idx()));
            }
            assert forall|j: int, m: Move|
                has_bit(targets, j) && (#[trigger] g(Square::at(j)).contains(m)) implies target_key()(
                m,
            ) == Square::at(j) by {
                lemma_promotions(from, Square::at(j), board.role_at(Square::at(j).idx()));
            }
            lemma_for_each_no_dup(targets, g, target_key());
            assert forall|m: Move| #[trigger] f(from).contains(m) implies is_pawn_capture(
                board,
                turn,
                target,
                promote,
                m,
            ) && m.from_spec() == Some(from) by {
                let j = lemma_for_each_member(targets, g, m);
                lemma_promotions(from, Square::at(j), board.role_at(Square::at(j).idx()));
            }
        } else {
            lemma_moves_to(board, Role::Pawn, from, targets);
        }
    }
    assert forall|i: int, m: Move|
        has_bit(pawns, i) && (#[trigger] f(Square::at(i)).contains(m)) implies origin_key()(m)
        == Square::at(i) by {
    }
    lemma_for_each_no_dup(pawns, f, origin_key());
    assert forall|m: Move| #[trigger]
        pawn_captures(board, turn, pawns, target, promote).contains(m) implies is_pawn_capture(
        board,
        turn,
        target,
        promote,
        m,
    ) && has_bit(pawns, m.from_spec().unwrap().idx()) by {
        let i = lemma_for_each_member(pawns, f, m);
    }
}

/// True for an advance of a pawn of `turn` by `steps` indexes to a square
/// of `targets`: a promotion if `promote` is set.
pub open spec fn is_pawn_push(turn: Color, targets: u64, steps: int, promote: bool, m: Move) -> bool {
    m matches Move::Normal { role, from, capture, to, promotion } && role == Role::Pawn
        && capture.is_none() && 0 <= to.idx() < 64 && has_bit(targets, to.idx()) && 0 <= from.idx()
        < 64 && from.idx() == to.idx() + back(turn, steps) && (if promote {
        promotion matches Some(p) && is_promotion_role(p)
    } else {
        promotion.is_none()
    })
}

/// The advances to the squares of `targets` are such advances, and none
/// comes twice.
pub proof fn lemma_pawn_pushes(turn: Color, targets: u64, steps: int, promote: bool)
    ensures
        pawn_pushes(turn, targets, steps, promote).no_duplicates(),
        forall|m: Move| #[trigger]
            pawn_pushes(turn, targets, steps, promote).contains(m) ==> is_pawn_push(
                turn,
                targets,
                steps,
                promote,
                m,
            ),
{
    broadcast use Square::lemma_idx_at;

    let f = each_push_target(turn, steps, promote);
    assert forall|i: int| has_bit(targets, i) implies {
        &&& (#[trigger] f(Square::at(i))).no_duplicates()
        &&& forall|m: Move| #[trigger]
            f(Square::at(i)).contains(m) ==> is_pawn_push(turn, targets, steps, promote, m)
                && m.to_spec() == Square::at(i)
    } by {
        let to = Square::at(i);
        match to.offset_spec(back(turn, steps)) {
            Some(from) => {
                if promote {
                    lemma_promotions(from, to, None);
                } else {
                    assert forall|m: Move| #[trigger] f(to).contains(m) implies is_pawn_push(
                        turn,
                        targets,
                        steps,
                        promote,
                        m,
                    ) && m.to_spec() == to by {
                        assert(f(to)[0] == m);
                    }
                }
            },
            None => {},
        }
    }
    assert forall|i: int, m: Move|
        has_bit(targets, i) && (#[trigger] f(Square::at(i)).contains(m)) implies target_key()(m)
        == Square::at(i) by {
    }
    lemma_for_each_no_dup(targets, f, target_key());
    assert forall|m: Move| #[trigger]
        pawn_pushes(turn, targets, steps, promote).contains(m) implies is_pawn_push(
        turn,
        targets,
        steps,
        promote,
        m,
    ) by {
        let i = lemma_for_each_member(targets, f, m);
    }
}

/// The moves of the king to safe squares are moves of the king to squares
/// of the target beside it, and none comes twice.
pub proof fn lemma_safe_king(board: BoardView, turn: Color, king: Square, target: u64)
    ensures
        safe_king(board, turn, king, target).no_duplicates(),
        forall|m: Move| #[trigger]
            safe_king(board, turn, king, target).contains(m) ==> is_normal(
                board,
                Role::King,
                king,
                m,
            ) && has_bit(king_attacks_spec(king.idx()), m.to_spec().idx()) && has_bit(
                target,
                m.to_spec().idx(),
            ),
{
    broadcast use Square::lemma_idx_at;

    let f = each_safe_king_target(board, turn, king);
    let set = king_attacks_spec(king.idx()) & target;
    assert forall|i: int, m: Move|
        has_bit(set, i) && (#[trigger] f(Square::at(i)).contains(m)) implies target_key()(m)
        == Square::at(i) by {
        assert(f(Square::at(i))[0] == m);
    }
    lemma_for_each_no_dup(set, f, target_key());
    assert forall|m: Move| #[trigger]
        safe_king(board, turn, king, target).contains(m) implies is_normal(
        board,
        Role::King,
        king,
        m,
    ) && has_bit(king_attacks_spec(king.idx()), m.to_spec().idx()) && has_bit(
        target,
        m.to_spec().idx(),
    ) by {
        let i = lemma_for_each_member(set, f, m);
        assert(f(Square::at(i))[0] == m);
        lemma_set_bits(king_attacks_spec(king.idx()), target, i);
    }
}

/// The pawns of `turn` that attack the en passant square.
pub open spec fn en_passant_pawns(board: BoardView, turn: Color, to: Square) -> u64 {
    board.pawns & board.by_color(turn) & pawn_attacks_spec(turn.other_spec(), to.idx())
}

/// The en passant captures go to the en passant square, from a pawn that
/// attacks it, and none comes twice.
pub proof fn lemma_en_passant(board: BoardView, turn: Color, ep_square: Option<Square>)
    ensures
        en_passant(board, turn, ep_square).no_duplicates(),
        forall|m: Move| #[trigger]
            en_passant(board, turn, ep_square).contains(m) ==> (m matches Move::EnPassant {
                from,
                to,
            } && ep_square == Some(to) && 0 <= from.idx() < 64 && has_bit(
                en_passant_pawns(board, turn, to),
                from.idx(),
            )),
{
    broadcast use Square::lemma_idx_at;

    match ep_square {
        Some(to) => {
            let f = each_en_passant(to);
            let set = en_passant_pawns(board, turn, to);
            assert forall|i: int, m: Move|
                has_bit(set, i) && (#[trigger] f(Square::at(i)).contains(m)) implies origin_key()(m)
                == Square::at(i) by {
                assert(f(Square::at(i))[0] == m);
            }
            lemma_for_each_no_dup(set, f, origin_key());
            assert forall|m: Move| #[trigger]
                en_passant(board, turn, ep_square).contains(m) implies (m matches Move::EnPassant {
                from,
                to: t,
            } && ep_square == Some(t) && 0 <= from.idx() < 64 && has_bit(
                en_passant_pawns(board, turn, t),
                from.idx(),
            )) by {
                let i = lemma_for_each_member(set, f, m);
                assert(f(Square::at(i))[0] == m);
            }
        },
        None => {},
    }
}

/// On a well formed board a square is occupied exactly if it has a role,
/// and it does not have both colors.
pub proof fn lemma_roles(board: BoardView, i: int)
    requires
        board.wf(),
        0 <= i < 64,
    ensures
        has_bit(board.occupied(), i) <==> board.role_at(i).is_some(),
        has_bit(board.occupied(), i) <==> has_bit(board.white, i) || has_bit(board.black, i),
        !(has_bit(board.white, i) && has_bit(board.black, i)),
{
    lemma_set_bits(board.pawns, board.knights, i);
    lemma_set_bits(board.pawns | board.knights, board.bishops, i);
    lemma_set_bits(board.pawns | board.knights | board.bishops, board.rooks, i);
    lemma_set_bits(board.pawns | board.knights | board.bishops | board.rooks, board.queens, i);
    lemma_set_bits(
        board.pawns | board.knights | board.bishops | board.rooks | board.queens,
        board.kings,
        i,
    );
    lemma_set_bits(board.white, board.black, i);
    lemma_no_bits(i);
}

/// Which squares a set holds after it is moved eight indexes forward, as
/// a color sees the board.
pub proof fn lemma_shift(b: u64, turn: Color, i: int)
    requires
        0 <= i < 64,
    ensures
        has_bit(relative_shift_spec(b, turn, 8), i) <==> (0 <= i - 8 * forward(turn) < 64
            && has_bit(b, i - 8 * forward(turn))),
{
    let j = i as u64;
    let k = (if turn == Color::White {
        i - 8
    } else {
        i + 8
    }) as u64;
    assert(j < 64 ==> (j >= 8 && k == j - 8 ==> ((((b << 8) >> j) & 1 == 1) <==> ((b >> k) & 1
        == 1))) && (j < 8 ==> ((b << 8) >> j) & 1 == 0) && (j < 56 && k == j + 8 ==> ((((b >> 8)
        >> j) & 1 == 1) <==> ((b >> k) & 1 == 1))) && (56 <= j ==> ((b >> 8) >> j) & 1 == 0))
        by (bit_vector);
}

/// The rank on which the pawns of a color promote.
pub open spec fn last_rank(turn: Color) -> int {
    if turn == Color::White {
        7
    } else {
        0
    }
}

/// True if a pawn of the side to move may go from `from` to `to`, as far
/// as the squares go: with a capture to a square that it attacks and
/// that the other side holds, or one step ahead to an empty square, or two
/// steps ahead over an empty square to an empty square.
pub open spec fn pawn_way(s: State, from: Square, capture: Option<Role>, to: Square) -> bool {
    let ahead = from.idx() + 8 * forward(s.turn);
    ||| (has_bit(pawn_attacks_spec(s.turn, from.idx()), to.idx()) && has_bit(them(s), to.idx())
        && capture == s.board.role_at(to.idx()) && capture.is_some())
    ||| (capture.is_none() && to.idx() == ahead && !has_bit(s.board.occupied(), to.idx()))
    ||| (capture.is_none() && to.idx() == ahead + 8 * forward(s.turn) && !has_bit(
        s.board.occupied(),
        to.idx(),
    ) && !has_bit(s.board.occupied(), ahead))
}

/// True if the move follows the way its piece moves, whatever becomes of
/// the king: a piece of the side to move goes to a square that it attacks
/// and that its own side does not hold, and captures what stands there. A
/// pawn goes as pawns go, and is promoted exactly on its last rank, to a
/// knight, bishop, rook or queen, or in Antichess to a king. An en passant
/// capture starts from a pawn that attacks the en passant square. Castling
/// names the king and a rook that may still castle. A drop, which only
/// Crazyhouse has, puts a piece from the pocket on an empty square, and no
/// pawn on the first or last rank.
pub open spec fn pseudo_legal(s: State, m: Move) -> bool {
    match m {
        Move::Normal { role, from, capture, to, promotion } => {
            &&& 0 <= from.idx() < 64
            &&& 0 <= to.idx() < 64
            &&& has_bit(s.board.by_piece(Piece { color: s.turn, role }), from.idx())
            &&& !has_bit(us(s), to.idx())
            &&& if role == Role::Pawn {
                &&& pawn_way(s, from, capture, to)
                &&& match promotion {
                    Some(p) => to.idx() / 8 == last_rank(s.turn) && (is_promotion_role(p) || (p
                        == Role::King && s.variant == Variant::Antichess)),
                    None => to.idx() / 8 != last_rank(s.turn),
                }
            } else {
                &&& promotion.is_none()
                &&& capture == s.board.role_at(to.idx())
                &&& has_bit(
                    attacks_spec(
                        from.idx(),
                        Piece { color: s.turn, role },
                        s.board.occupied(),
                    ),
                    to.idx(),
                )
            }
        },
        Move::EnPassant { from, to } => {
            &&& s.ep_square == Some(to)
            &&& 0 <= from.idx() < 64
            &&& has_bit(en_passant_pawns(s.board, s.turn, to), from.idx())
        },
        Move::Castle { king, rook } => {
            &&& s.board.king_of(s.turn) == Some(king)
            &&& (s.castles.rook_spec(s.turn, CastlingSide::KingSide) == Some(rook)
                || s.castles.rook_spec(s.turn, CastlingSide::QueenSide) == Some(rook))
        },
        Move::Put { role, to } => {
            &&& s.variant == Variant::Crazyhouse
            &&& role != Role::King
            &&& s.pockets.by_color_spec(s.turn).by_role_spec(role) > 0
            &&& 0 <= to.idx() < 64
            &&& !has_bit(s.board.occupied(), to.idx())
            &&& (role == Role::Pawn ==> !has_bit(BACKRANKS, to.idx()))
        },
    }
}

/// The moves of the pieces like `piece` of the side to move, to squares
/// that its own side does not hold, follow the way the piece moves.
pub proof fn lemma_piece_moves_pseudo(s: State, role: Role, target: u64, m: Move)
    requires
        role != Role::Pawn,
        piece_moves(s.board, Piece { color: s.turn, role }, target).contains(m),
        target & us(s) == 0,
    ensures
        pseudo_legal(s, m),
        m.role_spec() == role,
        m is Normal,
{
    let piece = Piece { color: s.turn, role };
    lemma_piece_moves(s.board, piece, target);
    let to = m.to_spec().idx();
    lemma_set_bits(target, us(s), to);
    lemma_no_bits(to);
}

/// The pawn moves of the side to move follow the way pawns move, and none
/// comes twice.
pub proof fn lemma_pawn_moves(s: State, target: u64)
    requires
        s.board.wf(),
    ensures
        pawn_moves(s.board, s.turn, target).no_duplicates(),
        forall|m: Move| #[trigger]
            pawn_moves(s.board, s.turn, target).contains(m) ==> pseudo_legal(s, m) && m.role_spec()
                == Role::Pawn && m is Normal && has_bit(target, m.to_spec().idx())
                && m.promotion_spec() != Some(Role::King),
{
    let board = s.board;
    let turn = s.turn;
    let pawns = our_pawns(board, turn);
    let on_seventh = seventh(board, turn);
    let single = single_moves(board, turn);
    let double = double_moves(board, turn);
    let a = pawn_captures(board, turn, pawns & !on_seventh, target, false);
    let b = pawn_captures(board, turn, on_seventh, target, true);
    let c = pawn_pushes(turn, single & target & !BACKRANKS, 8, false);
    let d = pawn_pushes(turn, single & target & BACKRANKS, 8, true);
    let e = pawn_pushes(turn, double & target, 16, false);
    lemma_pawn_captures(board, turn, pawns & !on_seventh, target, false);
    lemma_pawn_captures(board, turn, on_seventh, target, true);
    lemma_pawn_pushes(turn, single & target & !BACKRANKS, 8, false);
    lemma_pawn_pushes(turn, single & target & BACKRANKS, 8, true);
    lemma_pawn_pushes(turn, double & target, 16, false);
    let seventh_rank = if turn == Color::White { 6int } else { 1int };
    assert forall|m: Move|
        #![trigger a.contains(m)]
        #![trigger b.contains(m)]
        (a.contains(m) || b.contains(m)) implies pseudo_legal(s, m) && m.capture_spec().is_some()
        && m.promotion_spec().is_some() == b.contains(m) && has_bit(target, m.to_spec().idx())
        && !(a.contains(m) && b.contains(m)) && m.promotion_spec() != Some(Role::King) by {
        let from = m.from_spec().unwrap().idx();
        let to = m.to_spec().idx();
        lemma_set_bits(pawn_attacks_spec(turn, from) & board.by_color(turn.other_spec()), target, to);
        lemma_set_bits(pawn_attacks_spec(turn, from), board.by_color(turn.other_spec()), to);
        lemma_pawn_attack(turn, from, to);
        lemma_roles(board, to);
        lemma_set_bits(pawns, !on_seventh, from);
        lemma_set_bits(on_seventh, 0, from);
        lemma_set_bits(pawns, relative_rank_bits(turn, 6), from);
        lemma_lines(from, seventh_rank);
    }
    assert forall|m: Move|
        #![trigger c.contains(m)]
        #![trigger d.contains(m)]
        #![trigger e.contains(m)]
        (c.contains(m) || d.contains(m) || e.contains(m)) implies pseudo_legal(s, m)
        && m.capture_spec().is_none() && m.promotion_spec().is_some() == d.contains(m) && has_bit(
        target,
        m.to_spec().idx(),
    ) && (m.to_spec().idx() - m.from_spec().unwrap().idx() == 16 * forward(turn)) == e.contains(m)
        && !(c.contains(m) && d.contains(m)) && m.promotion_spec() != Some(Role::King) by {
        let from = m.from_spec().unwrap().idx();
        let to = m.to_spec().idx();
        lemma_single(to, to);
        lemma_roles(board, to);
        lemma_set_bits(single & target, !BACKRANKS, to);
        lemma_set_bits(single & target, BACKRANKS, to);
        lemma_set_bits(BACKRANKS, 0, to);
        lemma_set_bits(single, target, to);
        lemma_set_bits(double, target, to);
        lemma_set_bits(relative_shift_spec(pawns, turn, 8), !board.occupied(), to);
        lemma_set_bits(board.occupied(), 0, to);
        lemma_shift(pawns, turn, to);
        let ranks = relative_rank_bits(turn, 3) | relative_rank_bits(turn, 2);
        lemma_set_bits(relative_shift_spec(single, turn, 8) & ranks, !board.occupied(), to);
        lemma_set_bits(relative_shift_spec(single, turn, 8), ranks, to);
        lemma_set_bits(relative_rank_bits(turn, 3), relative_rank_bits(turn, 2), to);
        lemma_lines(to, 2);
        lemma_lines(to, 3);
        lemma_lines(to, 4);
        lemma_lines(to, 5);
        lemma_shift(single, turn, to);
        if 0 <= to - 8 * forward(turn) < 64 {
            let mid = to - 8 * forward(turn);
            lemma_set_bits(relative_shift_spec(pawns, turn, 8), !board.occupied(), mid);
            lemma_set_bits(board.occupied(), 0, mid);
            lemma_shift(pawns, turn, mid);
        }
    }
    let ab = a + b;
    let abc = ab + c;
    let abcd = abc + d;
    assert forall|m: Move| #[trigger] ab.contains(m) implies a.contains(m) || b.contains(m) by {
        lemma_concat_member(a, b, m);
    }
    assert forall|m: Move| #[trigger] abc.contains(m) implies ab.contains(m) || c.contains(m) by {
        lemma_concat_member(ab, c, m);
    }
    assert forall|m: Move| #[trigger] abcd.contains(m) implies abc.contains(m) || d.contains(
        m,
    ) by {
        lemma_concat_member(abc, d, m);
    }
    assert forall|m: Move| #[trigger] (abcd + e).contains(m) implies abcd.contains(m)
        || e.contains(m) by {
        lemma_concat_member(abcd, e, m);
    }
    assert forall|i: int, j: int| 0 <= i < a.len() && 0 <= j < b.len() implies a[i] != b[j] by {
        assert(a.contains(a[i]));
        assert(b.contains(b[j]));
    }
    lemma_no_dup_in_concat(a, b);
    assert forall|i: int, j: int| 0 <= i < ab.len() && 0 <= j < c.len() implies ab[i] != c[j] by {
        assert(ab.contains(ab[i]));
        assert(c.contains(c[j]));
    }
    lemma_no_dup_in_concat(ab, c);
    assert forall|i: int, j: int| 0 <= i < abc.len() && 0 <= j < d.len() implies abc[i]
        != d[j] by {
        assert(abc.contains(abc[i]));
        assert(d.contains(d[j]));
    }
    lemma_no_dup_in_concat(abc, d);
    assert forall|i: int, j: int| 0 <= i < abcd.len() && 0 <= j < e.len() implies abcd[i]
        != e[j] by {
        assert(abcd.contains(abcd[i]));
        assert(e.contains(e[j]));
    }
    lemma_no_dup_in_concat(abcd, e);
}

/// Sets of squares that have no square in common with the set `a`.
pub proof fn lemma_apart(a: u64, b: u64, x: u64)
    by (bit_vector)
    ensures
        (!a) & a == 0,
        (!a & !x) & a == 0,
        (x & !a) & a == 0,
        (!(a | b)) & a == 0,
        (!(a | b)) & b == 0,
        (!(b | a)) & a == 0,
        a & b == 0 ==> b & a == 0,
        a & !a == 0,
        0 & a == 0,
        a & b == b & a,
        (a & b) & !b == 0,
{
}

/// True if the rooks with which a color may castle on the two sides
/// differ.
pub open spec fn distinct_rooks(castles: Castles, color: Color) -> bool {
    castles.rook_spec(color, CastlingSide::KingSide).is_none() || castles.rook_spec(
        color,
        CastlingSide::KingSide,
    ) != castles.rook_spec(color, CastlingSide::QueenSide)
}

/// True if a position is well formed: its board is well formed, and no
/// rook serves for castling on both sides.
pub open spec fn well_formed(s: State) -> bool {
    &&& s.board.wf()
    &&& distinct_rooks(s.castles, Color::White)
    &&& distinct_rooks(s.castles, Color::Black)
}

/// The king of a color, if there is one, stands on the board and is a
/// king of that color.
pub proof fn lemma_king_of(board: BoardView, color: Color)
    ensures
        board.king_of(color) matches Some(k) ==> 0 <= k.idx() < 64 && has_bit(
            board.by_piece(Piece { color, role: Role::King }),
            k.idx(),
        ),
{
    broadcast use Square::lemma_idx_at;

    let kings = board.by_color(color) & board.kings;
    if kings != 0 {
        lemma_lsb(kings);
    }
}

/// There is at most one castling move on a side, and it names the king and
/// the rook of that side.
pub proof fn lemma_castling(
    variant: Variant,
    board: BoardView,
    turn: Color,
    castles: Castles,
    king: Square,
    side: CastlingSide,
)
    ensures
        castling(variant, board, turn, castles, king, side).len() <= 1,
        forall|m: Move| #[trigger]
            castling(variant, board, turn, castles, king, side).contains(m) ==> (
            m matches Move::Castle { king: k, rook } && k == king && castles.rook_spec(turn, side)
                == Some(rook)),
{
    let c = castling(variant, board, turn, castles, king, side);
    assert forall|m: Move| #[trigger] c.contains(m) implies (m matches Move::Castle {
        king: k,
        rook,
    } && k == king && castles.rook_spec(turn, side) == Some(rook)) by {
        assert(c[0] == m);
    }
}

/// The castling moves of the side to move name its king and a rook that
/// may castle, and none comes twice.
pub proof fn lemma_both_castlings(s: State)
    requires
        distinct_rooks(s.castles, s.turn),
    ensures
        both_castlings(s).no_duplicates(),
        forall|m: Move| #[trigger]
            both_castlings(s).contains(m) ==> pseudo_legal(s, m) && m is Castle,
{
    match king(s) {
        Some(k) => {
            let a = castling(s.variant, s.board, s.turn, s.castles, k, CastlingSide::KingSide);
            let b = castling(s.variant, s.board, s.turn, s.castles, k, CastlingSide::QueenSide);
            lemma_castling(s.variant, s.board, s.turn, s.castles, k, CastlingSide::KingSide);
            lemma_castling(s.variant, s.board, s.turn, s.castles, k, CastlingSide::QueenSide);
            assert forall|m: Move| #[trigger] (a + b).contains(m) implies pseudo_legal(s, m)
                && m is Castle by {
                lemma_concat_member(a, b, m);
            }
            assert forall|i: int, j: int|
                0 <= i < a.len() && 0 <= j < b.len() implies a[i] != b[j] by {
                assert(a.contains(a[i]));
                assert(b.contains(b[j]));
            }
            lemma_no_dup_in_concat(a, b);
        },
        None => {},
    }
}

/// The moves of the king of the side to move to safe squares follow the
/// way the king moves, and none comes twice.
pub proof fn lemma_safe_king_moves(s: State, target: u64)
    requires
        target & us(s) == 0,
    ensures
        safe_king_moves(s, target).no_duplicates(),
        forall|m: Move| #[trigger]
            safe_king_moves(s, target).contains(m) ==> pseudo_legal(s, m) && m is Normal
                && m.role_spec() == Role::King,
{
    match king(s) {
        Some(k) => {
            lemma_king_of(s.board, s.turn);
            lemma_safe_king(s.board, s.turn, k, target);
            assert forall|m: Move| #[trigger] safe_king_moves(s, target).contains(m) implies pseudo_legal(
                s,
                m,
            ) && m is Normal && m.role_spec() == Role::King by {
                let to = m.to_spec().idx();
                lemma_set_bits(target, us(s), to);
                lemma_no_bits(to);
            }
        },
        None => {},
    }
}

/// The moves of pawns, knights, bishops, rooks and queens follow the ways
/// these pieces move, and none comes twice.
pub proof fn lemma_non_king(s: State, target: u64)
    requires
        s.board.wf(),
        target & us(s) == 0,
    ensures
        non_king(s.board, s.turn, target).no_duplicates(),
        forall|m: Move| #[trigger]
            non_king(s.board, s.turn, target).contains(m) ==> pseudo_legal(s, m) && m is Normal
                && m.role_spec() != Role::King && has_bit(target, m.to_spec().idx())
                && m.promotion_spec() != Some(Role::King),
{
    let board = s.board;
    let turn = s.turn;
    let p = pawn_moves(board, turn, target);
    let n = piece_moves(board, Piece { color: turn, role: Role::Knight }, target);
    let b = piece_moves(board, Piece { color: turn, role: Role::Bishop }, target);
    let r = piece_moves(board, Piece { color: turn, role: Role::Rook }, target);
    let q = piece_moves(board, Piece { color: turn, role: Role::Queen }, target);
    lemma_pawn_moves(s, target);
    lemma_piece_moves(board, Piece { color: turn, role: Role::Knight }, target);
    lemma_piece_moves(board, Piece { color: turn, role: Role::Bishop }, target);
    lemma_piece_moves(board, Piece { color: turn, role: Role::Rook }, target);
    lemma_piece_moves(board, Piece { color: turn, role: Role::Queen }, target);
    assert forall|m: Move| #[trigger] n.contains(m) implies pseudo_legal(s, m) && m.role_spec()
        == Role::Knight && m is Normal by {
        lemma_piece_moves_pseudo(s, Role::Knight, target, m);
    }
    assert forall|m: Move| #[trigger] b.contains(m) implies pseudo_legal(s, m) && m.role_spec()
        == Role::Bishop && m is Normal by {
        lemma_piece_moves_pseudo(s, Role::Bishop, target, m);
    }
    assert forall|m: Move| #[trigger] r.contains(m) implies pseudo_legal(s, m) && m.role_spec()
        == Role::Rook && m is Normal by {
        lemma_piece_moves_pseudo(s, Role::Rook, target, m);
    }
    assert forall|m: Move| #[trigger] q.contains(m) implies pseudo_legal(s, m) && m.role_spec()
        == Role::Queen && m is Normal by {
        lemma_piece_moves_pseudo(s, Role::Queen, target, m);
    }
    let pn = p + n;
    let pnb = pn + b;
    let pnbr = pnb + r;
    assert forall|m: Move| #[trigger] pn.contains(m) implies p.contains(m) || n.contains(m) by {
        lemma_concat_member(p, n, m);
    }
    assert forall|m: Move| #[trigger] pnb.contains(m) implies pn.contains(m) || b.contains(m) by {
        lemma_concat_member(pn, b, m);
    }
    assert forall|m: Move| #[trigger] pnbr.contains(m) implies pnb.contains(m) || r.contains(
        m,
    ) by {
        lemma_concat_member(pnb, r, m);
    }
    assert forall|m: Move| #[trigger] (pnbr + q).contains(m) implies pnbr.contains(m)
        || q.contains(m) by {
        lemma_concat_member(pnbr, q, m);
    }
    assert forall|i: int, j: int| 0 <= i < p.len() && 0 <= j < n.len() implies p[i] != n[j] by {
        assert(p.contains(p[i]));
        assert(n.contains(n[j]));
    }
    lemma_no_dup_in_concat(p, n);
    assert forall|i: int, j: int| 0 <= i < pn.len() && 0 <= j < b.len() implies pn[i] != b[j] by {
        assert(pn.contains(pn[i]));
        assert(b.contains(b[j]));
    }
    lemma_no_dup_in_concat(pn, b);
    assert forall|i: int, j: int| 0 <= i < pnb.len() && 0 <= j < r.len() implies pnb[i]
        != r[j] by {
        assert(pnb.contains(pnb[i]));
        assert(r.contains(r[j]));
    }
    lemma_no_dup_in_concat(pnb, r);
    assert forall|i: int, j: int| 0 <= i < pnbr.len() && 0 <= j < q.len() implies pnbr[i]
        != q[j] by {
        assert(pnbr.contains(pnbr[i]));
        assert(q.contains(q[j]));
    }
    lemma_no_dup_in_concat(pnbr, q);
}

/// Two lists of moves that follow the ways of the pieces, and that have no
/// move in common, make such a list.
pub proof fn lemma_join(s: State, a: Seq<Move>, b: Seq<Move>)
    requires
        a.no_duplicates(),
        b.no_duplicates(),
        forall|m: Move| #[trigger] a.contains(m) ==> pseudo_legal(s, m),
        forall|m: Move| #[trigger] b.contains(m) ==> pseudo_legal(s, m),
        forall|m: Move| a.contains(m) ==> !b.contains(m),
    ensures
        (a + b).no_duplicates(),
        forall|m: Move| #[trigger] (a + b).contains(m) ==> pseudo_legal(s, m),
        forall|m: Move| #[trigger] (a + b).contains(m) ==> a.contains(m) || b.contains(m),
{
    assert forall|m: Move| #[trigger] (a + b).contains(m) implies a.contains(m) || b.contains(
        m,
    ) by {
        lemma_concat_member(a, b, m);
    }
    assert forall|i: int, j: int| 0 <= i < a.len() && 0 <= j < b.len() implies a[i] != b[j] by {
        assert(a.contains(a[i]));
        assert(b.contains(b[j]));
    }
    lemma_no_dup_in_concat(a, b);
}

/// The moves out of check follow the ways of the pieces, and none comes
/// twice.
pub proof fn lemma_evasion_moves(s: State)
    requires
        s.board.wf(),
    ensures
        evasion_moves(s).no_duplicates(),
        forall|m: Move| #[trigger] evasion_moves(s).contains(m) ==> pseudo_legal(s, m) && m is Normal,
{
    match king(s) {
        Some(k) => {
            let c = checkers(s);
            let sliders = c & (s.board.bishops ^ s.board.rooks ^ s.board.queens);
            let attacked = crate::movegen::fold_or(sliders, crate::movegen::each_checker(k), 0);
            let checker = Square::at(lsb(c));
            let target = !s.board.by_color(s.turn) & !attacked;
            let a = safe_king(s.board, s.turn, k, target);
            lemma_apart(us(s), 0, attacked);
            lemma_safe_king_moves(s, target);
            assert(a == safe_king_moves(s, target));
            if c != 0 && drop_lsb(c) == 0 {
                let squares = between_spec(k.idx(), checker.idx()) | bit(checker.idx());
                lemma_apart(us(s), 0, squares);
                lemma_non_king(s, squares & !s.board.by_color(s.turn));
                let b = non_king(s.board, s.turn, squares & !s.board.by_color(s.turn));
                lemma_join(s, a, b);
                assert forall|m: Move| #[trigger] (a + b).contains(m) implies m is Normal by {
                }
            } else {
                assert(a + Seq::<Move>::empty() =~= a);
            }
        },
        None => {},
    }
}

/// The moves that are kept of a list that follows the ways of the pieces
/// make such a list.
pub proof fn lemma_pin_filtered(s: State, pseudo: Seq<Move>, always: bool)
    requires
        pseudo.no_duplicates(),
        forall|m: Move| #[trigger] pseudo.contains(m) ==> pseudo_legal(s, m),
    ensures
        pin_filtered(s, pseudo, always).no_duplicates(),
        forall|m: Move| #[trigger]
            pin_filtered(s, pseudo, always).contains(m) ==> pseudo_legal(s, m) && pseudo.contains(
                m,
            ),
{
    match king(s) {
        Some(k) => {
            let blockers = crate::movegen::slider_blockers(s.board, them(s), k);
            lemma_filter_no_dup(pseudo, crate::movegen::safe_fn(s.board, s.turn, k, blockers));
        },
        None => {},
    }
}

/// The legal moves by the rules of standard chess are a set, and each
/// follows the way its piece moves.
pub proof fn lemma_standard_moves(s: State)
    requires
        well_formed(s),
    ensures
        standard_moves(s).no_duplicates(),
        forall|m: Move| #[trigger]
            standard_moves(s).contains(m) ==> pseudo_legal(s, m) && !(m is Put),
{
    let ep = en_passant(s.board, s.turn, s.ep_square);
    lemma_en_passant(s.board, s.turn, s.ep_square);
    let others = if checkers(s) == 0 {
        non_king(s.board, s.turn, !us(s)) + safe_king_moves(s, !us(s)) + both_castlings(s)
    } else {
        evasion_moves(s)
    };
    if checkers(s) == 0 {
        lemma_apart(us(s), 0, 0);
        lemma_non_king(s, !us(s));
        lemma_safe_king_moves(s, !us(s));
        lemma_both_castlings(s);
        let a = non_king(s.board, s.turn, !us(s));
        let b = safe_king_moves(s, !us(s));
        let c = both_castlings(s);
        lemma_join(s, a, b);
        lemma_join(s, a + b, c);
        assert forall|m: Move| #[trigger] others.contains(m) implies !(m is EnPassant) && !(
        m is Put) by {
        }
    } else {
        lemma_evasion_moves(s);
    }
    lemma_join(s, ep, others);
    lemma_pin_filtered(s, ep + others, ep.len() > 0);
}

/// A move that follows the ways of the pieces in one position follows them
/// in a position of another variant that holds the same, unless it is a
/// drop or a promotion to a king.
pub proof fn lemma_pseudo_variant(t: State, s: State, m: Move)
    requires
        pseudo_legal(t, m),
        !(m is Put),
        t.variant != Variant::Antichess,
        t.board == s.board,
        t.turn == s.turn,
        t.castles == s.castles,
        t.ep_square == s.ep_square,
    ensures
        pseudo_legal(s, m),
{
}

/// The drops of Crazyhouse put a piece from the pocket on an empty square,
/// and none comes twice.
pub proof fn lemma_drops(s: State)
    requires
        s.variant == Variant::Crazyhouse,
    ensures
        drops(s).no_duplicates(),
        forall|m: Move| #[trigger] drops(s).contains(m) ==> pseudo_legal(s, m) && m is Put,
{
    broadcast use Square::lemma_idx_at;

    let pocket = s.pockets.by_color_spec(s.turn);
    let squares = put_squares(s);
    let f = each_drop_square(pocket);
    let g = each_pawn_drop();
    let c = checkers(chess_part(s));
    let pieces = crate::movegen::for_each(squares, f);
    let pawns = if pocket.pawns > 0 {
        crate::movegen::for_each(squares & !BACKRANKS, g)
    } else {
        Seq::empty()
    };
    assert forall|i: int| has_bit(squares, i) implies !has_bit(s.board.occupied(), i) by {
        match king(s) {
            Some(k) => {
                lemma_set_bits(
                    between_spec(Square::at(lsb(c)).idx(), k.idx()),
                    !s.board.occupied(),
                    i,
                );
            },
            None => {},
        }
        lemma_set_bits(s.board.occupied(), 0, i);
        lemma_no_bits(i);
    }
    assert forall|i: int| has_bit(squares, i) implies {
        &&& (#[trigger] f(Square::at(i))).no_duplicates()
        &&& forall|m: Move| #[trigger]
            f(Square::at(i)).contains(m) ==> pseudo_legal(s, m) && m is Put && m.role_spec()
                != Role::Pawn && m.to_spec() == Square::at(i)
    } by {
        let to = Square::at(i);
        let n = piece_drop(pocket, Role::Knight, to);
        let b = piece_drop(pocket, Role::Bishop, to);
        let r = piece_drop(pocket, Role::Rook, to);
        let q = piece_drop(pocket, Role::Queen, to);
        assert forall|m: Move| #[trigger] n.contains(m) implies m == (Move::Put {
            role: Role::Knight,
            to,
        }) && pseudo_legal(s, m) by {
            assert(n[0] == m);
        }
        assert forall|m: Move| #[trigger] b.contains(m) implies m == (Move::Put {
            role: Role::Bishop,
            to,
        }) && pseudo_legal(s, m) by {
            assert(b[0] == m);
        }
        assert forall|m: Move| #[trigger] r.contains(m) implies m == (Move::Put {
            role: Role::Rook,
            to,
        }) && pseudo_legal(s, m) by {
            assert(r[0] == m);
        }
        assert forall|m: Move| #[trigger] q.contains(m) implies m == (Move::Put {
            role: Role::Queen,
            to,
        }) && pseudo_legal(s, m) by {
            assert(q[0] == m);
        }
        lemma_join(s, n, b);
        lemma_join(s, n + b, r);
        lemma_join(s, n + b + r, q);
    }
    assert forall|i: int, m: Move|
        has_bit(squares, i) && (#[trigger] f(Square::at(i)).contains(m)) implies target_key()(m)
        == Square::at(i) by {
    }
    lemma_for_each_no_dup(squares, f, target_key());
    assert forall|m: Move| #[trigger] pieces.contains(m) implies pseudo_legal(s, m) && m is Put
        && m.role_spec() != Role::Pawn by {
        let i = lemma_for_each_member(squares, f, m);
    }
    if pocket.pawns > 0 {
        let set = squares & !BACKRANKS;
        assert forall|i: int, m: Move|
            has_bit(set, i) && (#[trigger] g(Square::at(i)).contains(m)) implies target_key()(m)
            == Square::at(i) by {
            assert(g(Square::at(i))[0] == m);
        }
        lemma_for_each_no_dup(set, g, target_key());
        assert forall|m: Move| #[trigger] pawns.contains(m) implies pseudo_legal(s, m) && m is Put
            && m.role_spec() == Role::Pawn by {
            let i = lemma_for_each_member(set, g, m);
            assert(g(Square::at(i))[0] == m);
            lemma_set_bits(squares, !BACKRANKS, i);
            lemma_set_bits(BACKRANKS, 0, i);
        }
    }
    lemma_join(s, pieces, pawns);
}

/// Where pawns may become kings, a list of moves that follow the ways of
/// the pieces is still such a list with the promotions to a king added.
pub proof fn lemma_with_king_promotions(s: State, base: Seq<Move>)
    requires
        s.variant == Variant::Antichess,
        base.no_duplicates(),
        forall|m: Move| #[trigger]
            base.contains(m) ==> pseudo_legal(s, m) && m.promotion_spec() != Some(Role::King),
    ensures
        with_king_promotions(base).no_duplicates(),
        forall|m: Move| #[trigger]
            with_king_promotions(base).contains(m) ==> pseudo_legal(s, m) && (base.contains(m)
                || (m.promotion_spec() == Some(Role::King) && m is Normal)),
{
    let queens = base.filter(queen_promotion_fn());
    let kings = queens.map_values(king_promotion_fn());
    lemma_filter_no_dup(base, queen_promotion_fn());
    assert forall|m: Move| #[trigger] kings.contains(m) implies pseudo_legal(s, m)
        && m.promotion_spec() == Some(Role::King) && m is Normal by {
        let k = choose|k: int| 0 <= k < kings.len() && kings[k] == m;
        assert(queens.contains(queens[k]));
        assert(base.contains(queens[k]));
        assert(is_queen_promotion(queens[k]));
        assert(pseudo_legal(s, queens[k]));
    }
    assert forall|i: int, j: int| 0 <= i < kings.len() && 0 <= j < kings.len() && i
        != j implies kings[i] != kings[j] by {
        assert(queens.contains(queens[i]));
        assert(queens.contains(queens[j]));
        assert(is_queen_promotion(queens[i]));
        assert(is_queen_promotion(queens[j]));
    }
    lemma_join(s, base, kings);
}

/// The moves of Antichess to the squares of a target follow the ways of
/// the pieces, and none comes twice.
pub proof fn lemma_antichess_gen(s: State, target: u64, ep: bool)
    requires
        s.board.wf(),
        s.variant == Variant::Antichess,
        target & us(s) == 0,
    ensures
        antichess_gen(s, target, ep).no_duplicates(),
        forall|m: Move| #[trigger]
            antichess_gen(s, target, ep).contains(m) ==> pseudo_legal(s, m) && (m is Normal
                || m is EnPassant),
{
    let first = if ep {
        en_passant(s.board, s.turn, s.ep_square)
    } else {
        Seq::empty()
    };
    let pieces = non_king(s.board, s.turn, target);
    lemma_en_passant(s.board, s.turn, s.ep_square);
    lemma_non_king(s, target);
    lemma_join(s, first, pieces);
    let base = first + pieces;
    assert forall|m: Move| #[trigger] base.contains(m) implies pseudo_legal(s, m)
        && m.promotion_spec() != Some(Role::King) && !(m is Normal && m.role_spec()
        == Role::King) && (m is Normal || m is EnPassant) by {
    }
    lemma_with_king_promotions(s, base);
    let all = with_king_promotions(base);
    let moves = piece_moves(s.board, Piece { color: s.turn, role: Role::King }, target);
    lemma_piece_moves(s.board, Piece { color: s.turn, role: Role::King }, target);
    assert forall|m: Move| #[trigger] moves.contains(m) implies pseudo_legal(s, m) && m.role_spec()
        == Role::King && m is Normal && m.promotion_spec().is_none() by {
        lemma_piece_moves_pseudo(s, Role::King, target, m);
    }
    lemma_join(s, all, moves);
}

/// The moves of Atomic chess before the test for the kings follow the
/// ways of the pieces, and none comes twice.
pub proof fn lemma_atomic_pseudo(s: State)
    requires
        well_formed(s),
    ensures
        atomic_pseudo(s).no_duplicates(),
        forall|m: Move| #[trigger] atomic_pseudo(s).contains(m) ==> pseudo_legal(s, m),
{
    let ep = en_passant(s.board, s.turn, s.ep_square);
    let pieces = non_king(s.board, s.turn, !us(s));
    let target = !s.board.occupied();
    let moves = piece_moves(s.board, Piece { color: s.turn, role: Role::King }, target);
    lemma_en_passant(s.board, s.turn, s.ep_square);
    lemma_apart(us(s), 0, 0);
    lemma_apart(s.board.white, s.board.black, 0);
    lemma_non_king(s, !us(s));
    lemma_piece_moves(s.board, Piece { color: s.turn, role: Role::King }, target);
    assert forall|m: Move| #[trigger] moves.contains(m) implies pseudo_legal(s, m) && m.role_spec()
        == Role::King && m is Normal by {
        lemma_piece_moves_pseudo(s, Role::King, target, m);
    }
    lemma_both_castlings(s);
    lemma_join(s, ep, pieces);
    lemma_join(s, ep + pieces, moves);
    lemma_join(s, ep + pieces + moves, both_castlings(s));
}

/// The legal moves are a set, and each follows the way its piece moves.
pub proof fn lemma_legal_moves(s: State)
    requires
        well_formed(s),
    ensures
        legal_moves_spec(s).no_duplicates(),
        forall|m: Move| #[trigger] legal_moves_spec(s).contains(m) ==> pseudo_legal(s, m),
{
    let t = chess_part(s);
    match s.variant {
        Variant::Chess => {
            lemma_standard_moves(s);
        },
        Variant::Horde => {
            lemma_standard_moves(s);
        },
        Variant::KingOfTheHill => {
            lemma_standard_moves(t);
            assert forall|m: Move| #[trigger] standard_moves(t).contains(m) implies pseudo_legal(
                s,
                m,
            ) by {
                lemma_pseudo_variant(t, s, m);
            }
        },
        Variant::ThreeCheck => {
            lemma_standard_moves(t);
            assert forall|m: Move| #[trigger] standard_moves(t).contains(m) implies pseudo_legal(
                s,
                m,
            ) by {
                lemma_pseudo_variant(t, s, m);
            }
        },
        Variant::Crazyhouse => {
            lemma_standard_moves(t);
            assert forall|m: Move| #[trigger] standard_moves(t).contains(m) implies pseudo_legal(
                s,
                m,
            ) by {
                lemma_pseudo_variant(t, s, m);
            }
            lemma_drops(s);
            lemma_join(s, standard_moves(t), drops(s));
        },
        Variant::Atomic => {
            lemma_atomic_pseudo(s);
            lemma_filter_no_dup(atomic_pseudo(s), atomic_keep_fn(s));
        },
        Variant::Antichess => {
            lemma_apart(s.board.white, s.board.black, 0);
            lemma_antichess_gen(s, them(s), true);
            lemma_antichess_gen(s, !s.board.occupied(), false);
        },
        Variant::RacingKings => {
            if !racing_end(s) {
                lemma_apart(us(s), 0, 0);
                lemma_non_king(s, !us(s));
                lemma_safe_king_moves(s, !us(s));
                let a = non_king(s.board, s.turn, !us(s));
                let b = safe_king_moves(s, !us(s));
                lemma_join(s, a, b);
                lemma_pin_filtered(s, a + b, false);
                lemma_filter_no_dup(pin_filtered(s, a + b, false), no_check_fn(s));
            }
        },
    }
}

/// The position after a move is well formed.
pub proof fn lemma_play_well_formed(s: State, m: Move)
    requires
        well_formed(s),
    ensures
        well_formed(play_spec(s, m)),
        play_spec(s, m).board.wf(),
{
    let turn_piece = |role: Role| Piece { color: s.turn, role };
    let after = do_move_spec(s, m);
    match m {
        Move::Normal { role, from, to, promotion, .. } => {
            let b1 = s.board.without(from.idx());
            s.board.lemma_patched_wf(bit(from.idx()), None, None, false);
            b1.lemma_patched_wf(
                bit(to.idx()),
                Some(crate::position::role_after(role, promotion)),
                Some(s.turn),
                has_bit(s.board.promoted, from.idx()) || promotion.is_some(),
            );
        },
        Move::Castle { king, rook } => {
            let side = crate::position::side_of(king, rook);
            let b1 = s.board.without(king.idx());
            let b2 = b1.without(rook.idx());
            let rook_to = 8 * (rook.idx() / 8) + side.rook_to_file_spec().idx();
            let king_to = 8 * (king.idx() / 8) + side.king_to_file_spec().idx();
            let b3 = b2.with(rook_to, Piece { color: s.turn, role: Role::Rook }, false);
            s.board.lemma_patched_wf(bit(king.idx()), None, None, false);
            b1.lemma_patched_wf(bit(rook.idx()), None, None, false);
            b2.lemma_patched_wf(bit(rook_to), Some(Role::Rook), Some(s.turn), false);
            b3.lemma_patched_wf(bit(king_to), Some(Role::King), Some(s.turn), false);
        },
        Move::EnPassant { from, to } => {
            let captured = 8 * (from.idx() / 8) + to.idx() % 8;
            let b1 = s.board.without(captured);
            let b2 = b1.without(from.idx());
            s.board.lemma_patched_wf(bit(captured), None, None, false);
            b1.lemma_patched_wf(bit(from.idx()), None, None, false);
            b2.lemma_patched_wf(bit(to.idx()), Some(Role::Pawn), Some(s.turn), false);
        },
        Move::Put { role, to } => {
            s.board.lemma_patched_wf(bit(to.idx()), Some(role), Some(s.turn), false);
        },
    }
    assert(after.board.wf());
    if s.variant == Variant::Atomic {
        let destination = match m {
            Move::Normal { capture: Some(_), to, .. } => Some(to),
            Move::EnPassant { to, .. } => Some(to),
            _ => None,
        };
        match destination {
            Some(to) => {
                let board = after.board.without(to.idx());
                after.board.lemma_patched_wf(bit(to.idx()), None, None, false);
                let radius = king_attacks_spec(to.idx()) & board.occupied() & !board.pawns;
                board.lemma_patched_wf(radius, None, None, false);
            },
            None => {},
        }
    }
}

/// A set of squares that holds one square at most.
pub open spec fn at_most_one(x: u64) -> bool {
    x == 0 || drop_lsb(x) == 0
}

/// What two sets have in common after some squares are emptied in both and
/// then added to the sets that `a` and `b` name.
pub proof fn lemma_patched_sets(x: u64, y: u64, m: u64, a: u64, b: u64)
    by (bit_vector)
    requires
        a == 0 || a == m,
        b == 0 || b == m,
    ensures
        a == 0 || b == 0 ==> (((x & !m) | a) & ((y & !m) | b)) & !(x & y) == 0,
        a == 0 && b == 0 ==> ((x & !m) | a) & ((y & !m) | b) == (x & y) & !m,
        a == m && b == m ==> ((x & !m) | a) & ((y & !m) | b) == ((x & y) & !m) | m,
{
}

/// Facts about sets of one square at most, and about sets apart from
/// another set.
pub proof fn lemma_small_sets(x: u64, y: u64, z: u64, t: u64)
    by (bit_vector)
    requires
        t < 64,
    ensures
        (x == 0 || x & ((x - 1) as u64) == 0) && y & !x == 0 ==> (y == 0 || y & ((y - 1) as u64)
            == 0),
        (x == 0 || x & ((x - 1) as u64) == 0) && (x >> t) & 1 == 1 ==> x & !(1u64 << t) == 0,
        ((0u64 & !(1u64 << t)) | (1u64 << t)) & ((((0u64 & !(1u64 << t)) | (1u64 << t)) - 1) as u64)
            == 0,
        y & !x == 0 && x & z == 0 ==> y & z == 0,
        !((z >> t) & 1 == 1) ==> (1u64 << t) & z == 0,
        x & z == 0 && (1u64 << t) & z == 0 ==> ((x & !(1u64 << t)) | (1u64 << t)) & z == 0,
        (x == 0 || x & ((x - 1) as u64) == 0) && y & !x == 0 && y != 0 ==> y == x,
{
}

/// The kings of a color.
pub open spec fn kings_of(board: BoardView, color: Color) -> u64 {
    board.by_piece(Piece { color, role: Role::King })
}

/// The pawns of a color.
pub open spec fn pawns_of(board: BoardView, color: Color) -> u64 {
    board.by_piece(Piece { color, role: Role::Pawn })
}

/// How the pieces of a kind change when some squares are emptied and a
/// piece is put on them: they become fewer, unless the piece is of that
/// kind, and then it is added.
pub proof fn lemma_patched_pieces(
    board: BoardView,
    mask: u64,
    role: Option<Role>,
    color: Option<Color>,
    promoted: bool,
    piece: Piece,
)
    ensures
        role != Some(piece.role) || color != Some(piece.color) ==> board.patched(
            mask,
            role,
            color,
            promoted,
        ).by_piece(piece) & !board.by_piece(piece) == 0,
        role.is_none() && color.is_none() ==> board.patched(mask, role, color, promoted).by_piece(
            piece,
        ) == board.by_piece(piece) & !mask,
        role == Some(piece.role) && color == Some(piece.color) ==> board.patched(
            mask,
            role,
            color,
            promoted,
        ).by_piece(piece) == (board.by_piece(piece) & !mask) | mask,
{
    let zero = 0u64;
    lemma_patched_sets(
        board.by_color(piece.color),
        board.by_role(piece.role),
        mask,
        if color == Some(piece.color) { mask } else { zero },
        if role == Some(piece.role) { mask } else { zero },
    );
    match piece.color {
        Color::White => {},
        Color::Black => {},
    }
    match piece.role {
        Role::Pawn => {},
        Role::Knight => {},
        Role::Bishop => {},
        Role::Rook => {},
        Role::Queen => {},
        Role::King => {},
    }
}

/// The pieces like `piece` become fewer with a move that puts no such
/// piece on the board, in every variant.
pub proof fn lemma_play_fewer(s: State, m: Move, piece: Piece)
    requires
        match m {
            Move::Normal { role, promotion, .. } => crate::position::role_after(role, promotion)
                != piece.role || s.turn != piece.color,
            Move::Castle { .. } => (piece.role != Role::King && piece.role != Role::Rook) || s.turn
                != piece.color,
            Move::EnPassant { .. } => piece.role != Role::Pawn || s.turn != piece.color,
            Move::Put { role, .. } => role != piece.role || s.turn != piece.color,
        },
    ensures
        play_spec(s, m).board.by_piece(piece) & !s.board.by_piece(piece) == 0,
{
    let x0 = s.board.by_piece(piece);
    let after = do_move_spec(s, m);
    match m {
        Move::Normal { role, from, to, promotion, .. } => {
            let b1 = s.board.without(from.idx());
            lemma_patched_pieces(s.board, bit(from.idx()), None, None, false, piece);
            lemma_patched_pieces(
                b1,
                bit(to.idx()),
                Some(crate::position::role_after(role, promotion)),
                Some(s.turn),
                has_bit(s.board.promoted, from.idx()) || promotion.is_some(),
                piece,
            );
            lemma_small_sets(x0, b1.by_piece(piece), !x0, 0);
            lemma_small_sets(b1.by_piece(piece), after.board.by_piece(piece), !x0, 0);
        },
        Move::Castle { king, rook } => {
            let side = crate::position::side_of(king, rook);
            let b1 = s.board.without(king.idx());
            let b2 = b1.without(rook.idx());
            let rook_to = 8 * (rook.idx() / 8) + side.rook_to_file_spec().idx();
            let king_to = 8 * (king.idx() / 8) + side.king_to_file_spec().idx();
            let b3 = b2.with(rook_to, Piece { color: s.turn, role: Role::Rook }, false);
            lemma_patched_pieces(s.board, bit(king.idx()), None, None, false, piece);
            lemma_patched_pieces(b1, bit(rook.idx()), None, None, false, piece);
            lemma_patched_pieces(b2, bit(rook_to), Some(Role::Rook), Some(s.turn), false, piece);
            lemma_patched_pieces(b3, bit(king_to), Some(Role::King), Some(s.turn), false, piece);
            lemma_small_sets(x0, b1.by_piece(piece), !x0, 0);
            lemma_small_sets(b1.by_piece(piece), b2.by_piece(piece), !x0, 0);
            lemma_small_sets(b2.by_piece(piece), b3.by_piece(piece), !x0, 0);
            lemma_small_sets(b3.by_piece(piece), after.board.by_piece(piece), !x0, 0);
        },
        Move::EnPassant { from, to } => {
            let captured = 8 * (from.idx() / 8) + to.idx() % 8;
            let b1 = s.board.without(captured);
            let b2 = b1.without(from.idx());
            lemma_patched_pieces(s.board, bit(captured), None, None, false, piece);
            lemma_patched_pieces(b1, bit(from.idx()), None, None, false, piece);
            lemma_patched_pieces(b2, bit(to.idx()), Some(Role::Pawn), Some(s.turn), false, piece);
            lemma_small_sets(x0, b1.by_piece(piece), !x0, 0);
            lemma_small_sets(b1.by_piece(piece), b2.by_piece(piece), !x0, 0);
            lemma_small_sets(b2.by_piece(piece), after.board.by_piece(piece), !x0, 0);
        },
        Move::Put { role, to } => {
            lemma_patched_pieces(s.board, bit(to.idx()), Some(role), Some(s.turn), false, piece);
        },
    }
    assert(after.board.by_piece(piece) & !x0 == 0);
    lemma_explosion_fewer(s, m, piece);
    lemma_small_sets(after.board.by_piece(piece), play_spec(s, m).board.by_piece(piece), !x0, 0);
}

/// The explosion of Atomic chess only takes pieces from the board.
pub proof fn lemma_explosion_fewer(s: State, m: Move, piece: Piece)
    ensures
        play_spec(s, m).board.by_piece(piece) & !do_move_spec(s, m).board.by_piece(piece) == 0,
{
    let after = do_move_spec(s, m);
    let x = after.board.by_piece(piece);
    lemma_apart(x, 0, 0);
    if s.variant == Variant::Atomic {
        let destination = match m {
            Move::Normal { capture: Some(_), to, .. } => Some(to),
            Move::EnPassant { to, .. } => Some(to),
            _ => None,
        };
        match destination {
            Some(to) => {
                let board = after.board.without(to.idx());
                let radius = king_attacks_spec(to.idx()) & board.occupied() & !board.pawns;
                lemma_patched_pieces(after.board, bit(to.idx()), None, None, false, piece);
                lemma_patched_pieces(board, radius, None, None, false, piece);
                let y1 = board.by_piece(piece);
                let y2 = board.patched(radius, None, None, false).by_piece(piece);
                lemma_small_sets(y1, y2, !x, 0);
            },
            None => {},
        }
    }
}

/// A side that has one king at most has one king at most after a move
/// that follows the ways of the pieces, in every variant but Antichess,
/// where pawns are promoted to kings.
pub proof fn lemma_play_kings(s: State, m: Move, color: Color)
    requires
        s.variant != Variant::Antichess,
        pseudo_legal(s, m),
        at_most_one(kings_of(s.board, color)),
    ensures
        at_most_one(kings_of(play_spec(s, m).board, color)),
{
    let piece = Piece { color, role: Role::King };
    let x0 = kings_of(s.board, color);
    let after = do_move_spec(s, m);
    let moves_king = s.turn == color && (match m {
        Move::Normal { role, .. } => role == Role::King,
        Move::Castle { .. } => true,
        _ => false,
    });
    if moves_king {
        match m {
            Move::Normal { role, from, to, promotion, .. } => {
                let b1 = s.board.without(from.idx());
                lemma_patched_pieces(s.board, bit(from.idx()), None, None, false, piece);
                lemma_patched_pieces(
                    b1,
                    bit(to.idx()),
                    Some(Role::King),
                    Some(s.turn),
                    has_bit(s.board.promoted, from.idx()) || promotion.is_some(),
                    piece,
                );
                lemma_small_sets(x0, 0, 0, from.idx() as u64);
                lemma_small_sets(0, 0, 0, to.idx() as u64);
                assert(b1.by_piece(piece) == 0);
                assert(at_most_one(after.board.by_piece(piece)));
            },
            Move::Castle { king, rook } => {
                broadcast use Square::lemma_idx_at;

                lemma_king_of(s.board, s.turn);
                let side = crate::position::side_of(king, rook);
                let b1 = s.board.without(king.idx());
                let b2 = b1.without(rook.idx());
                let rook_to = 8 * (rook.idx() / 8) + side.rook_to_file_spec().idx();
                let king_to = 8 * (king.idx() / 8) + side.king_to_file_spec().idx();
                let b3 = b2.with(rook_to, Piece { color: s.turn, role: Role::Rook }, false);
                lemma_patched_pieces(s.board, bit(king.idx()), None, None, false, piece);
                lemma_patched_pieces(b1, bit(rook.idx()), None, None, false, piece);
                lemma_patched_pieces(
                    b2,
                    bit(rook_to),
                    Some(Role::Rook),
                    Some(s.turn),
                    false,
                    piece,
                );
                lemma_patched_pieces(
                    b3,
                    bit(king_to),
                    Some(Role::King),
                    Some(s.turn),
                    false,
                    piece,
                );
                lemma_small_sets(x0, 0, 0, king.idx() as u64);
                assert(b1.by_piece(piece) == 0);
                lemma_small_sets(0, b2.by_piece(piece), 0, 0);
                lemma_small_sets(0, b3.by_piece(piece), 0, 0);
                assert(b3.by_piece(piece) == 0) by {
                    lemma_zero_subset(b2.by_piece(piece));
                    lemma_zero_subset(b3.by_piece(piece));
                }
                lemma_small_sets(0, 0, 0, king_to as u64);
                assert(at_most_one(after.board.by_piece(piece)));
            },
            _ => {},
        }
        lemma_explosion_fewer(s, m, piece);
        lemma_small_sets(
            after.board.by_piece(piece),
            play_spec(s, m).board.by_piece(piece),
            0,
            0,
        );
    } else {
        lemma_play_fewer(s, m, piece);
        lemma_small_sets(x0, play_spec(s, m).board.by_piece(piece), 0, 0);
    }
}

/// Only the empty set is within the empty set.
pub proof fn lemma_zero_subset(y: u64)
    by (bit_vector)
    ensures
        y & !0u64 == 0 ==> y == 0,
        0u64 & !y == 0,
{
}

/// A color whose pawns stand neither on the first nor on the last rank
/// has no pawn there after a move that follows the ways of the pieces,
/// unless that move is an en passant capture to one of these ranks.
pub proof fn lemma_play_pawns(s: State, m: Move, color: Color)
    requires
        s.board.wf(),
        pseudo_legal(s, m),
        pawns_of(s.board, color) & BACKRANKS == 0,
        m matches Move::EnPassant { to, .. } ==> 0 <= to.idx() < 64 && !has_bit(
            BACKRANKS,
            to.idx(),
        ),
    ensures
        pawns_of(play_spec(s, m).board, color) & BACKRANKS == 0,
{
    let piece = Piece { color, role: Role::Pawn };
    let x0 = pawns_of(s.board, color);
    let after = do_move_spec(s, m);
    let puts_pawn = s.turn == color && (match m {
        Move::Normal { role, promotion, .. } => crate::position::role_after(role, promotion)
            == Role::Pawn,
        Move::EnPassant { .. } => true,
        Move::Put { role, .. } => role == Role::Pawn,
        _ => false,
    });
    if puts_pawn {
        match m {
            Move::Normal { role, from, capture, to, promotion } => {
                let b1 = s.board.without(from.idx());
                lemma_patched_pieces(s.board, bit(from.idx()), None, None, false, piece);
                lemma_patched_pieces(
                    b1,
                    bit(to.idx()),
                    Some(Role::Pawn),
                    Some(s.turn),
                    has_bit(s.board.promoted, from.idx()) || promotion.is_some(),
                    piece,
                );
                lemma_set_bits(x0, BACKRANKS, from.idx());
                lemma_no_bits(from.idx());
                lemma_single(from.idx(), from.idx());
                lemma_single(to.idx(), to.idx());
                if has_bit(pawn_attacks_spec(s.turn, from.idx()), to.idx()) {
                    lemma_pawn_attack(s.turn, from.idx(), to.idx());
                }
                assert(!has_bit(BACKRANKS, to.idx()));
                lemma_apart(x0, 0, 0);
                lemma_small_sets(x0, x0 & !bit(from.idx()), BACKRANKS, to.idx() as u64);
                lemma_subset(x0, bit(from.idx()));
                lemma_small_sets(x0 & !bit(from.idx()), 0, BACKRANKS, to.idx() as u64);
            },
            Move::EnPassant { from, to } => {
                let captured = 8 * (from.idx() / 8) + to.idx() % 8;
                let b1 = s.board.without(captured);
                let b2 = b1.without(from.idx());
                lemma_patched_pieces(s.board, bit(captured), None, None, false, piece);
                lemma_patched_pieces(b1, bit(from.idx()), None, None, false, piece);
                lemma_patched_pieces(
                    b2,
                    bit(to.idx()),
                    Some(Role::Pawn),
                    Some(s.turn),
                    false,
                    piece,
                );
                let x1 = b1.by_piece(piece);
                let x2 = b2.by_piece(piece);
                lemma_subset(x0, bit(captured));
                lemma_subset(x1, bit(from.idx()));
                lemma_small_sets(x0, x1, BACKRANKS, to.idx() as u64);
                lemma_small_sets(x1, x2, BACKRANKS, to.idx() as u64);
                lemma_small_sets(x2, 0, BACKRANKS, to.idx() as u64);
            },
            Move::Put { role, to } => {
                lemma_patched_pieces(
                    s.board,
                    bit(to.idx()),
                    Some(Role::Pawn),
                    Some(s.turn),
                    false,
                    piece,
                );
                lemma_small_sets(x0, 0, BACKRANKS, to.idx() as u64);
            },
            _ => {},
        }
        assert(after.board.by_piece(piece) & BACKRANKS == 0);
        lemma_explosion_fewer(s, m, piece);
        lemma_small_sets(
            after.board.by_piece(piece),
            play_spec(s, m).board.by_piece(piece),
            BACKRANKS,
            0,
        );
    } else {
        lemma_play_fewer(s, m, piece);
        lemma_small_sets(x0, play_spec(s, m).board.by_piece(piece), BACKRANKS, 0);
    }
}

/// A set without some squares is within the set.
pub proof fn lemma_subset(x: u64, m: u64)
    by (bit_vector)
    ensures
        (x & !m) & !x == 0,
{
}

/// The position that a setup describes is well formed if its board is.
pub proof fn lemma_setup_well_formed(
    variant: Variant,
    sv: crate::setup::SetupView,
    mode: Option<crate::types::CastlingMode>,
)
    requires
        sv.board.wf(),
    ensures
        well_formed(setup_state(variant, sv, mode)),
{
    broadcast use Square::lemma_idx_at;

    let s = setup_state(variant, sv, mode);
    assert forall|color: Color| distinct_rooks(s.castles, color) by {
        let k = crate::setup::castling_rook(
            sv.board,
            sv.castling_rights,
            color,
            CastlingSide::KingSide,
        );
        let q = crate::setup::castling_rook(
            sv.board,
            sv.castling_rights,
            color,
            CastlingSide::QueenSide,
        );
        if k.is_some() && q.is_some() {
            let back = CastlingSide::backrank_idx(color);
            let candidates = sv.castling_rights & sv.board.rooks & sv.board.by_color(color)
                & crate::bitboard::rank_bits(back);
            lemma_lsb(candidates);
            vstd::std_specs::bits::axiom_u64_leading_zeros(candidates);
        }
    }
}

/// In the castling rights of the starting position no rook serves for
/// both sides.
pub proof fn lemma_standard_castles()
    ensures
        distinct_rooks(Castles::standard(), Color::White),
        distinct_rooks(Castles::standard(), Color::Black),
        distinct_rooks(Castles::standard().without_side(Color::White), Color::White),
        distinct_rooks(Castles::standard().without_side(Color::White), Color::Black),
{
    broadcast use Square::lemma_idx_at;

    assert(Square::at(7).idx() == 7);
    assert(Square::at(0).idx() == 0);
    assert(Square::at(63).idx() == 63);
    assert(Square::at(56).idx() == 56);
}

/// Emptying a square or putting a piece on it leaves the other squares
/// occupied or empty as they were.
pub proof fn lemma_patched_other(
    board: BoardView,
    i: int,
    role: Option<Role>,
    color: Option<Color>,
    promoted: bool,
    e: int,
)
    requires
        0 <= i < 64,
        0 <= e < 64,
        e != i,
    ensures
        has_bit(board.patched(bit(i), role, color, promoted).occupied(), e) == has_bit(
            board.occupied(),
            e,
        ),
{
    let zero = 0u64;
    let m = bit(i);
    let a = if color == Some(Color::White) { m } else { zero };
    let b = if color == Some(Color::Black) { m } else { zero };
    lemma_single(i, e);
    lemma_no_bits(e);
    lemma_set_bits(m, 0, e);
    lemma_set_bits(board.white, !m, e);
    lemma_set_bits(board.black, !m, e);
    lemma_set_bits(board.white & !m, a, e);
    lemma_set_bits(board.black & !m, b, e);
    lemma_set_bits((board.white & !m) | a, (board.black & !m) | b, e);
    lemma_set_bits(board.white, board.black, e);
}

/// Emptying squares leaves no square occupied that was empty.
pub proof fn lemma_emptied(board: BoardView, mask: u64, e: int)
    requires
        0 <= e < 64,
        has_bit(board.patched(mask, None, None, false).occupied(), e),
    ensures
        has_bit(board.occupied(), e),
{
    let zero = 0u64;
    lemma_no_bits(e);
    lemma_set_bits(board.white, !mask, e);
    lemma_set_bits(board.black, !mask, e);
    lemma_set_bits(board.white & !mask, zero, e);
    lemma_set_bits(board.black & !mask, zero, e);
    lemma_set_bits((board.white & !mask) | zero, (board.black & !mask) | zero, e);
    lemma_set_bits(board.white, board.black, e);
}

} // verus!
