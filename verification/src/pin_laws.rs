//! Pieces that stand alone between a king and a rook, bishop or queen, and
//! what becomes of the line when such a piece moves.

use vstd::prelude::*;
use crate::attack_laws::{lemma_bishop_deltas_both_ways, lemma_rook_deltas_both_ways, lemma_slide_back, lemma_sliding_back};
use crate::attacks::{aligned_spec, between_spec, slide};
use crate::bitboard::{bit, has_bit, lemma_no_bits, Bitboard};
use crate::board::BoardView;
use crate::laws::{lemma_pawn_attack, lemma_single, pseudo_legal};
use crate::line_laws::{is_line, lemma_between, lemma_between_has, lemma_kinds_apart, lemma_knight_step, lemma_line_has, lemma_line_some, lemma_ray, lemma_same_line, line_attacks, line_deltas, Way};
use crate::magic::lemma_set_bits;
use crate::movegen::{each_sniper, slider_blockers, snipers};
use crate::position::State;
use crate::ray_laws::{before, lemma_one_direction, lemma_slide_clear, lemma_slide_far, lemma_slide_less, lemma_slide_part, lemma_slide_toward, lemma_unblocked};
use crate::square::Square;
use crate::threats::{lemma_fold_or_has, lemma_only_bit};
use crate::types::{Move, Role};

verus! {

/// True if the squares of `then` are those of `first` without `a` and
/// with `b`.
pub open spec fn moved(first: u64, then: u64, a: int, b: int) -> bool {
    forall|e: int| 0 <= e < 64 ==> (has_bit(then, e) <==> e == b || (e != a && has_bit(first, e)))
}

/// A rook, bishop or queen that reaches `k` once a piece has gone from `a`
/// to `b`, and did not before, was kept off by that piece alone: the
/// piece stood on the line, with only empty squares between `k` and the
/// attacker besides.
pub proof fn lemma_opened_line(
    rook: bool,
    first: u64,
    then: u64,
    k: int,
    a: int,
    b: int,
    w: Way,
    x: int,
)
    requires
        0 <= k < 64,
        0 <= a < 64,
        0 <= x < 64,
        moved(first, then, a, b),
        is_line(rook, w.delta, w.dr, w.df),
        has_bit(slide(k, then, w.delta), x),
        !has_bit(slide(k, first, w.delta), x),
    ensures
        has_bit(slide(k, first, w.delta), a),
        has_bit(slide(a, first, w.delta), x),
        has_bit(between_spec(k, x) & first, a),
        forall|i: int| 0 <= i < 64 && has_bit(between_spec(k, x) & first, i) ==> i == a,
{
    let d = w.delta;
    let fewer = first & !bit(a);
    assert forall|e: int| 0 <= e < 64 && has_bit(fewer, e) implies has_bit(then, e) by {
        lemma_set_bits(first, !bit(a), e);
        lemma_set_bits(bit(a), 0, e);
        lemma_single(a, e);
    }
    lemma_slide_less(k, fewer, then, d, x);
    lemma_unblocked(k, first, a, d, x);
    assert forall|e: int| 0 <= e < 64 && has_bit(0, e) implies has_bit(first, e) by {
        lemma_no_bits(e);
    }
    lemma_slide_less(k, 0, first, d, a);
    lemma_slide_less(a, 0, first, d, x);
    lemma_between_has(rook, k, x, a, d, w.dr, w.df);
    lemma_set_bits(between_spec(k, x), first, a);
    lemma_slide_toward(k, 0, d, w.dr, w.df, x);
    lemma_slide_far(k, 0, d, a);
    lemma_slide_far(a, 0, d, x);
    assert forall|i: int| 0 <= i < 64 && has_bit(between_spec(k, x) & first, i) implies i
        == a by {
        lemma_set_bits(between_spec(k, x), first, i);
        let r = lemma_between(k, x, i);
        lemma_slide_toward(k, 0, r.1.delta, r.1.dr, r.1.df, x);
        lemma_one_direction(k, x, w.dr, w.df, r.1.dr, r.1.df);
        lemma_slide_far(k, 0, d, i);
        lemma_slide_far(i, 0, d, x);
        if before(d, i, a) {
            lemma_slide_clear(k, first, d, a, i);
        } else if i != a {
            lemma_slide_part(k, 0, d, a, i);
            lemma_slide_clear(a, first, d, x, i);
        }
    }
}

/// A piece that stands alone between the king and a rook, bishop or queen
/// of the other side on a line of that piece is among the blockers.
pub proof fn lemma_blocker(board: BoardView, enemy: u64, king: Square, x: int, a: int)
    requires
        0 <= x < 64,
        0 <= a < 64,
        has_bit(snipers(board, king) & enemy, x),
        has_bit(between_spec(king.idx(), x) & board.occupied(), a),
        forall|i: int|
            0 <= i < 64 && has_bit(between_spec(king.idx(), x) & board.occupied(), i) ==> i == a,
    ensures
        has_bit(slider_blockers(board, enemy, king), a),
{
    broadcast use Square::lemma_idx_at;

    let b = between_spec(king.idx(), x) & board.occupied();
    lemma_only_bit(b, a);
    assert(!Bitboard(b).more_than_one_spec());
    assert(each_sniper(board, king)(Square::at(x)) == b);
    lemma_fold_or_has(snipers(board, king) & enemy, each_sniper(board, king), 0, x, a);
}

/// A square on the line through `a` and another square, where `a` is
/// reached from `k` in a direction of rook or bishop, is reached from `k`
/// in that direction or in the opposite one.
pub proof fn lemma_stays_on_line(rook: bool, k: int, a: int, b: int, w: Way) -> (v: Way)
    requires
        0 <= k < 64,
        0 <= a < 64,
        0 <= b < 64,
        k != b,
        is_line(rook, w.delta, w.dr, w.df),
        has_bit(slide(k, 0, w.delta), a),
        aligned_spec(a, b, k),
    ensures
        is_line(rook, v.delta, v.dr, v.df),
        has_bit(slide(k, 0, v.delta), b),
        v.delta == w.delta || v.delta == -w.delta,
        has_bit(line_attacks(rook, a, 0), b),
{
    lemma_slide_far(k, 0, w.delta, a);
    let kind = lemma_ray(a, b, k);
    lemma_slide_back(k, 0, w.delta, a);
    lemma_line_has(rook, a, 0, -w.delta, -w.dr, -w.df, k);
    lemma_kinds_apart(a, k);
    assert(kind == rook);
    lemma_rook_deltas_both_ways();
    lemma_bishop_deltas_both_ways();
    lemma_sliding_back(b, 0, line_deltas(rook), k);
    lemma_slide_toward(k, 0, w.delta, w.dr, w.df, a);
    lemma_same_line(rook, k, a, b, w)
}

/// A pawn, knight, bishop, rook or queen that moves along a rank, file or
/// diagonal passes over empty squares only.
pub proof fn lemma_way_clear(s: State, m: Move, delta: int, dr: int, df: int, i: int)
    requires
        s.board.wf(),
        pseudo_legal(s, m),
        m is Normal,
        m.role_spec() != Role::King,
        crate::magic::is_direction(delta, dr, df),
        has_bit(slide(m.from_spec().unwrap().idx(), 0, delta), m.to_spec().idx()),
        0 <= i < 64,
        has_bit(slide(m.from_spec().unwrap().idx(), 0, delta), i),
        before(delta, i, m.to_spec().idx()),
    ensures
        !has_bit(s.board.occupied(), i),
{
    let a = m.from_spec().unwrap().idx();
    let b = m.to_spec().idx();
    let occupied = s.board.occupied();
    lemma_slide_toward(a, 0, delta, dr, df, b);
    lemma_slide_toward(a, 0, delta, dr, df, i);
    lemma_slide_far(a, 0, delta, i);
    match m {
        Move::Normal { role, from, capture, to, promotion } => {
            match role {
                Role::Pawn => {
                    if has_bit(crate::attacks::pawn_attacks_spec(s.turn, a), b) {
                        lemma_pawn_attack(s.turn, a, b);
                    }
                },
                Role::Knight => {
                    lemma_knight_step(a, b);
                },
                _ => {
                    let rook = if role == Role::Queen {
                        has_bit(crate::attacks::rook_attacks_spec(a, occupied), b)
                    } else {
                        role == Role::Rook
                    };
                    lemma_set_bits(
                        crate::attacks::rook_attacks_spec(a, occupied),
                        crate::attacks::bishop_attacks_spec(a, occupied),
                        b,
                    );
                    let v = lemma_line_some(rook, a, occupied, b);
                    lemma_one_direction(a, b, dr, df, v.dr, v.df);
                    lemma_slide_clear(a, occupied, delta, b, i);
                },
            }
        },
        _ => {},
    }
}

} // verus!
