//! Castling and capturing en passant leave the king out of check, and so
//! does every move that the rules of standard chess allow.

use vstd::prelude::*;
use crate::attacks::slide;
use crate::bitboard::{bit, has_bit, lemma_no_bits};
use crate::color::Color;
use crate::laws::{at_most_one, forward, kings_of, lemma_pawn_attack, lemma_single, pseudo_legal};
use crate::line_laws::{lemma_line_has, lemma_line_some};
use crate::magic::lemma_set_bits;
use crate::movegen::{castled_occupied, castling, en_passant_occupied, is_safe_spec, slider_blockers};
use crate::position::{board_after, king, side_of, standard_moves, them, State};
use crate::ray_laws::{lemma_slide_agree, lemma_slide_far};
use crate::reachable::sides_apart;
use crate::safety::{king_safe, lemma_normal_moves_safe};
use crate::square::Square;
use crate::threats::{lemma_at_most_one_bits, lemma_no_threat, lemma_not_attacked, lemma_only_bit, lemma_patched_at, lemma_piece_at, lemma_xor_bits, threat};
use crate::types::{CastlingSide, Move, Role, Variant};

verus! {

/// True if the right of `color` to castle on `side`, if it has it, goes
/// with its king and one of its rooks on its back rank, and the squares
/// that king and rook reach are each one of these two or a square of the
/// path that has to be empty.
pub open spec fn castle_fit(s: State, color: Color, side: CastlingSide) -> bool {
    s.castles.rook_spec(color, side) matches Some(r) ==> (s.board.king_of(color) matches Some(k)
        && {
        let back = CastlingSide::backrank_idx(color);
        let rt = side.rook_to_spec(color).idx();
        let kt = side.king_to_spec(color).idx();
        &&& (kt == k.idx() || kt == r.idx() || has_bit(s.castles.path_spec(color, side).0, kt))
        &&& 0 <= r.idx() < 64
        &&& k.idx() / 8 == back
        &&& r.idx() / 8 == back
        &&& s.board.role_at(r.idx()) == Some(Role::Rook)
        &&& s.board.color_at(r.idx()) == Some(color)
        &&& (rt == k.idx() || rt == r.idx() || has_bit(s.castles.path_spec(color, side).0, rt))
    })
}

/// True for a pawn, a knight or a king: the pieces that attack no further
/// when a square between is emptied.
pub open spec fn is_stepper(role: Option<Role>) -> bool {
    role == Some(Role::Pawn) || role == Some(Role::Knight) || role == Some(Role::King)
}

/// True if the en passant square, if there is one, is one that a pawn
/// has just passed: it is empty, the pawn of the other side stands
/// behind it, and no pawn, knight or king but that pawn gives check.
pub open spec fn ep_fit(s: State) -> bool {
    s.ep_square matches Some(e) ==> {
        let v = e.idx() - 8 * forward(s.turn);
        &&& 0 <= e.idx() < 64
        &&& 0 <= v < 64
        &&& s.board.role_at(v) == Some(Role::Pawn)
        &&& s.board.color_at(v) == Some(s.turn.other_spec())
        &&& !has_bit(s.board.occupied(), e.idx())
        &&& (king(s) matches Some(k) ==> forall|x: int|
            0 <= x < 64 && #[trigger] threat(
                s.board,
                k.idx(),
                s.turn.other_spec(),
                s.board.occupied(),
                x,
            ) && is_stepper(s.board.role_at(x)) ==> x == v)
    }
}

/// True if, where an en passant square is set, no pawn, knight or king
/// gives check but the pawn that stands behind that square.
pub open spec fn ep_checks_fit(s: State) -> bool {
    (s.ep_square matches Some(e) && king(s).is_some()) ==> forall|x: int|
        0 <= x < 64 && #[trigger] threat(
            s.board,
            king(s).unwrap().idx(),
            s.turn.other_spec(),
            s.board.occupied(),
            x,
        ) && is_stepper(s.board.role_at(x)) ==> x == s.ep_square.unwrap().idx() - 8 * forward(
            s.turn,
        )
}

/// What stands on a square after castling: king and rook where they went,
/// nothing where they came from, and elsewhere what stood there.
pub proof fn lemma_after_castle(s: State, m: Move, e: int)
    requires
        s.board.wf(),
        m is Castle,
        0 <= m->king.idx() < 64,
        0 <= m->rook.idx() < 64,
        0 <= e < 64,
    ensures
        ({
            let after = board_after(s.board, s.turn, m);
            let k = m->king.idx();
            let r = m->rook.idx();
            let side = side_of(m->king, m->rook);
            let rt = 8 * (r / 8) + side.rook_to_file_spec().idx();
            let kt = 8 * (k / 8) + side.king_to_file_spec().idx();
            &&& after.wf()
            &&& after.color_at(e) == (if e == kt || e == rt {
                Some(s.turn)
            } else if e == k || e == r {
                None
            } else {
                s.board.color_at(e)
            })
            &&& after.role_at(e) == (if e == kt {
                Some(Role::King)
            } else if e == rt {
                Some(Role::Rook)
            } else if e == k || e == r {
                None
            } else {
                s.board.role_at(e)
            })
        }),
{
    let k = m->king.idx();
    let r = m->rook.idx();
    let side = side_of(m->king, m->rook);
    let rt = 8 * (r / 8) + side.rook_to_file_spec().idx();
    let kt = 8 * (k / 8) + side.king_to_file_spec().idx();
    let one = s.board.without(k);
    let two = one.without(r);
    let three = two.with(rt, crate::types::Piece { color: s.turn, role: Role::Rook }, false);
    s.board.lemma_patched_wf(bit(k), None, None, false);
    one.lemma_patched_wf(bit(r), None, None, false);
    two.lemma_patched_wf(bit(rt), Some(Role::Rook), Some(s.turn), false);
    three.lemma_patched_wf(bit(kt), Some(Role::King), Some(s.turn), false);
    lemma_patched_at(s.board, k, None, None, false, e);
    lemma_patched_at(one, r, None, None, false, e);
    lemma_patched_at(two, rt, Some(Role::Rook), Some(s.turn), false, e);
    lemma_patched_at(three, kt, Some(Role::King), Some(s.turn), false, e);
}

/// Castling, as the rules of standard chess allow it, leaves the king out
/// of check.
pub proof fn lemma_castle_safe(s: State, m: Move, side: CastlingSide)
    requires
        s.board.wf(),
        s.variant != Variant::Atomic,
        s.variant != Variant::Antichess,
        at_most_one(kings_of(s.board, s.turn)),
        sides_apart(s, s.turn),
        castle_fit(s, s.turn, side),
        king(s) matches Some(k) && castling(
            s.variant,
            s.board,
            s.turn,
            s.castles,
            k,
            side,
        ).contains(m),
    ensures
        king_safe(board_after(s.board, s.turn, m), s.turn),
{
    broadcast use Square::lemma_idx_at;
    broadcast use Square::lemma_at_idx;

    let king = king(s).unwrap();
    crate::laws::lemma_castling(s.variant, s.board, s.turn, s.castles, king, side);
    crate::laws::lemma_king_of(s.board, s.turn);
    let rook = m->rook;
    let k = king.idx();
    let r = rook.idx();
    let by = s.turn.other_spec();
    let first = s.board.occupied();
    let after = board_after(s.board, s.turn, m);
    let then = after.occupied();
    let rt = side.rook_to_spec(s.turn).idx();
    let kt = side.king_to_spec(s.turn).idx();
    let castled = castled_occupied(s.board, s.turn, king, rook, side);
    let path = s.castles.path_spec(s.turn, side).0;
    assert(side_of(king, rook) == side);
    lemma_piece_at(s.board, k);
    lemma_piece_at(s.board, r);
    lemma_piece_at(s.board, rt);
    lemma_set_bits(s.board.by_color(s.turn), s.board.by_role(Role::King), k);
    lemma_set_bits(path, first, rt);
    lemma_no_bits(rt);
    assert(rt == k || rt == r || !has_bit(first, rt));
    // The king stands where it went.
    let kings = kings_of(after, s.turn);
    assert forall|e: int| 0 <= e < 64 implies (has_bit(kings, e) <==> e == kt) by {
        lemma_after_castle(s, m, e);
        lemma_piece_at(after, e);
        lemma_piece_at(s.board, e);
        lemma_set_bits(after.by_color(s.turn), after.by_role(Role::King), e);
        lemma_set_bits(s.board.by_color(s.turn), s.board.by_role(Role::King), e);
        if has_bit(kings_of(s.board, s.turn), e) {
            lemma_at_most_one_bits(kings_of(s.board, s.turn), k, e);
        }
    }
    lemma_only_bit(kings, kt);
    lemma_after_castle(s, m, kt);
    // The squares that count are taken as the test for the last square has
    // it.
    assert forall|i: int| 0 <= i < 64 && i != kt implies has_bit(then, i) == has_bit(
        castled,
        i,
    ) by {
        lemma_after_castle(s, m, i);
        lemma_piece_at(after, i);
        lemma_piece_at(s.board, i);
        lemma_xor_bits(first, bit(k), i);
        lemma_xor_bits(first ^ bit(k), bit(r), i);
        lemma_xor_bits(first ^ bit(k) ^ bit(r), bit(rt), i);
        lemma_single(k, i);
        lemma_single(r, i);
        lemma_single(rt, i);
    }
    assert forall|x: int| 0 <= x < 64 implies !threat(after, kt, by, then, x) by {
        if threat(after, kt, by, then, x) {
            lemma_after_castle(s, m, x);
            lemma_not_attacked(s.board, kt, by, castled, x);
            let role = s.board.role_at(x);
            let along = (role == Some(Role::Rook) || role == Some(Role::Queen)) && has_bit(
                crate::attacks::rook_attacks_spec(kt, then),
                x,
            );
            let w = lemma_line_some(along, kt, then, x);
            assert forall|i: int| 0 <= i < 64 && has_bit(slide(kt, 0, w.delta), i) implies has_bit(
                then,
                i,
            ) == has_bit(castled, i) by {
                lemma_slide_far(kt, 0, w.delta, i);
            }
            lemma_slide_agree(kt, then, castled, w.delta);
            lemma_line_has(along, kt, castled, w.delta, w.dr, w.df, x);
        }
    }
    lemma_no_threat(after, kt, by, then);
}

/// What stands on a square after a capture en passant: the pawn on the en
/// passant square, nothing where it came from nor where the captured pawn
/// stood, and elsewhere what stood there.
pub proof fn lemma_after_en_passant(s: State, m: Move, e: int)
    requires
        s.board.wf(),
        m is EnPassant,
        0 <= m.from_spec().unwrap().idx() < 64,
        0 <= m.to_spec().idx() < 64,
        0 <= e < 64,
    ensures
        ({
            let after = board_after(s.board, s.turn, m);
            let a = m.from_spec().unwrap().idx();
            let b = m.to_spec().idx();
            let v = 8 * (a / 8) + b % 8;
            &&& after.wf()
            &&& after.color_at(e) == (if e == b {
                Some(s.turn)
            } else if e == a || e == v {
                None
            } else {
                s.board.color_at(e)
            })
            &&& after.role_at(e) == (if e == b {
                Some(Role::Pawn)
            } else if e == a || e == v {
                None
            } else {
                s.board.role_at(e)
            })
        }),
{
    let a = m.from_spec().unwrap().idx();
    let b = m.to_spec().idx();
    let v = 8 * (a / 8) + b % 8;
    let one = s.board.without(v);
    let two = one.without(a);
    s.board.lemma_patched_wf(bit(v), None, None, false);
    one.lemma_patched_wf(bit(a), None, None, false);
    two.lemma_patched_wf(bit(b), Some(Role::Pawn), Some(s.turn), false);
    lemma_patched_at(s.board, v, None, None, false, e);
    lemma_patched_at(one, a, None, None, false, e);
    lemma_patched_at(two, b, Some(Role::Pawn), Some(s.turn), false, e);
}

/// A capture en passant that passed the test for the king leaves the king
/// out of check, where the en passant square is one that a pawn has just
/// passed.
pub proof fn lemma_en_passant_safe(s: State, m: Move)
    requires
        s.board.wf(),
        s.variant != Variant::Atomic,
        s.variant != Variant::Antichess,
        at_most_one(kings_of(s.board, s.turn)),
        ep_fit(s),
        pseudo_legal(s, m),
        m is EnPassant,
        king(s) matches Some(k) ==> is_safe_spec(
            s.board,
            s.turn,
            k,
            m,
            slider_blockers(s.board, them(s), k),
        ),
    ensures
        king_safe(board_after(s.board, s.turn, m), s.turn),
{
    broadcast use Square::lemma_idx_at;
    broadcast use Square::lemma_at_idx;

    let a = m.from_spec().unwrap().idx();
    let b = m.to_spec().idx();
    let v = 8 * (a / 8) + b % 8;
    let by = s.turn.other_spec();
    let first = s.board.occupied();
    let after = board_after(s.board, s.turn, m);
    let then = after.occupied();
    crate::laws::lemma_king_of(s.board, s.turn);
    let pawns = crate::laws::en_passant_pawns(s.board, s.turn, m.to_spec());
    lemma_set_bits(
        s.board.pawns & s.board.by_color(s.turn),
        crate::attacks::pawn_attacks_spec(by, b),
        a,
    );
    lemma_set_bits(s.board.pawns, s.board.by_color(s.turn), a);
    lemma_pawn_attack(by, b, a);
    assert(v == b - 8 * forward(s.turn));
    lemma_piece_at(s.board, a);
    lemma_piece_at(s.board, b);
    lemma_piece_at(s.board, v);
    assert(has_bit(s.board.by_role(Role::Pawn), a));
    let kings = kings_of(after, s.turn);
    let before = kings_of(s.board, s.turn);
    assert forall|e: int| 0 <= e < 64 implies (has_bit(kings, e) <==> has_bit(before, e)) by {
        lemma_after_en_passant(s, m, e);
        lemma_piece_at(after, e);
        lemma_piece_at(s.board, e);
        lemma_set_bits(after.by_color(s.turn), after.by_role(Role::King), e);
        lemma_set_bits(s.board.by_color(s.turn), s.board.by_role(Role::King), e);
    }
    match king(s) {
        None => {
            if kings != 0 {
                crate::bitboard::lemma_lsb(kings);
                lemma_no_bits(crate::bitboard::lsb(kings));
            }
        },
        Some(king) => {
            let k = king.idx();
            assert forall|j: int| 0 <= j < 64 && has_bit(kings, j) implies j == k by {
                lemma_at_most_one_bits(before, k, j);
            }
            lemma_only_bit(kings, k);
            let taken = en_passant_occupied(s.board, m.from_spec().unwrap(), m.to_spec());
            assert forall|i: int| 0 <= i < 64 implies has_bit(then, i) == has_bit(taken, i) by {
                lemma_after_en_passant(s, m, i);
                lemma_piece_at(after, i);
                lemma_piece_at(s.board, i);
                lemma_xor_bits(first, bit(a), i);
                lemma_xor_bits(first ^ bit(a), bit(v), i);
                lemma_set_bits((first ^ bit(a)) ^ bit(v), bit(b), i);
                lemma_single(a, i);
                lemma_single(v, i);
                lemma_single(b, i);
            }
            lemma_after_en_passant(s, m, k);
            let rooks = crate::attacks::rook_attacks_spec(k, taken);
            let bishops = crate::attacks::bishop_attacks_spec(k, taken);
            assert forall|x: int| 0 <= x < 64 implies !threat(after, k, by, then, x) by {
                if threat(after, k, by, then, x) {
                    lemma_after_en_passant(s, m, x);
                    lemma_piece_at(s.board, x);
                    let role = s.board.role_at(x);
                    if !is_stepper(role) {
                        let along = (role == Some(Role::Rook) || role == Some(Role::Queen))
                            && has_bit(crate::attacks::rook_attacks_spec(k, then), x);
                        let w = lemma_line_some(along, k, then, x);
                        lemma_slide_agree(k, then, taken, w.delta);
                        lemma_line_has(along, k, taken, w.delta, w.dr, w.df, x);
                        lemma_set_bits(s.board.rooks, s.board.queens, x);
                        lemma_set_bits(s.board.bishops, s.board.queens, x);
                        lemma_set_bits(rooks, s.board.by_color(by), x);
                        lemma_set_bits(bishops, s.board.by_color(by), x);
                        lemma_set_bits(
                            rooks & s.board.by_color(by),
                            s.board.rooks | s.board.queens,
                            x,
                        );
                        lemma_set_bits(
                            bishops & s.board.by_color(by),
                            s.board.bishops | s.board.queens,
                            x,
                        );
                        assert(has_bit(s.board.by_role(Role::Queen), x) <==> role == Some(
                            Role::Queen,
                        ));
                        assert(has_bit(s.board.by_role(Role::Rook), x) <==> role == Some(
                            Role::Rook,
                        ));
                        assert(has_bit(s.board.by_role(Role::Bishop), x) <==> role == Some(
                            Role::Bishop,
                        ));
                        assert(has_bit(s.board.by_color(by), x));
                        lemma_no_bits(x);
                    } else {
                        assert(threat(s.board, k, by, first, x));
                    }
                }
            }
            lemma_no_threat(after, k, by, then);
        },
    }
}

/// Every move that the rules of standard chess allow leaves the king of
/// the side that moved out of check: no piece of the other side attacks
/// it in the position that the move gives. This holds where each side
/// has one king at most, the castling rights go with kings and rooks on
/// their squares, and the en passant square is one that a pawn has just
/// passed.
pub proof fn lemma_standard_moves_safe(s: State, m: Move)
    requires
        crate::laws::well_formed(s),
        s.variant != Variant::Atomic,
        s.variant != Variant::Antichess,
        at_most_one(kings_of(s.board, s.turn)),
        sides_apart(s, s.turn),
        castle_fit(s, s.turn, CastlingSide::KingSide),
        castle_fit(s, s.turn, CastlingSide::QueenSide),
        ep_fit(s),
        standard_moves(s).contains(m),
    ensures
        king_safe(board_after(s.board, s.turn, m), s.turn),
{
    crate::laws::lemma_standard_moves(s);
    match m {
        Move::Normal { .. } => {
            lemma_normal_moves_safe(s, m);
        },
        Move::Put { .. } => {},
        Move::EnPassant { .. } => {
            crate::reachable::lemma_standard_en_passant(s, m);
            let ep = crate::movegen::en_passant(s.board, s.turn, s.ep_square);
            crate::candidate_laws::lemma_pin_iff(s, ep, true, m);
            lemma_en_passant_safe(s, m);
        },
        Move::Castle { .. } => {
            let ep = crate::movegen::en_passant(s.board, s.turn, s.ep_square);
            let free = !crate::position::us(s);
            crate::laws::lemma_apart(crate::position::us(s), 0, 0);
            let others = if crate::position::checkers(s) == 0 {
                crate::movegen::non_king(s.board, s.turn, free)
                    + crate::position::safe_king_moves(s, free)
                    + crate::position::both_castlings(s)
            } else {
                crate::position::evasion_moves(s)
            };
            crate::candidate_laws::lemma_pin_iff(s, ep + others, ep.len() > 0, m);
            crate::candidate_laws::lemma_concat_iff(ep, others, m);
            crate::laws::lemma_en_passant(s.board, s.turn, s.ep_square);
            crate::laws::lemma_evasion_moves(s);
            crate::laws::lemma_non_king(s, free);
            crate::laws::lemma_safe_king_moves(s, free);
            let a = crate::movegen::non_king(s.board, s.turn, free);
            let g = crate::position::safe_king_moves(s, free);
            let c = crate::position::both_castlings(s);
            crate::candidate_laws::lemma_concat_iff(a + g, c, m);
            crate::candidate_laws::lemma_concat_iff(a, g, m);
            assert(c.contains(m));
            let k = king(s).unwrap();
            crate::candidate_laws::lemma_concat_iff(
                castling(s.variant, s.board, s.turn, s.castles, k, CastlingSide::KingSide),
                castling(s.variant, s.board, s.turn, s.castles, k, CastlingSide::QueenSide),
                m,
            );
            if castling(s.variant, s.board, s.turn, s.castles, k, CastlingSide::KingSide).contains(
                m,
            ) {
                lemma_castle_safe(s, m, CastlingSide::KingSide);
            } else {
                lemma_castle_safe(s, m, CastlingSide::QueenSide);
            }
        },
    }
}

} // verus!
