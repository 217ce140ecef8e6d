//! Lines and what lies between two squares, in terms of the squares that a
//! piece walks over.

use vstd::prelude::*;
use crate::attack_laws::{lemma_slide_back, lemma_sliding_some};
use crate::attacks::{between_spec, bishop_attacks_spec, bishop_deltas, king_attacks_spec, king_deltas, knight_attacks_spec, knight_deltas, ray_spec, rook_attacks_spec, rook_deltas, slide, sliding_attacks_spec, ALL_SQUARES};
use crate::bitboard::{bit, has_bit, lemma_no_bits};
use crate::laws::{lemma_single, lemma_step_member};
use crate::magic::{is_direction, lemma_set_bits};
use crate::ray_laws::{lemma_one_direction, lemma_slide_far, lemma_slide_last, lemma_slide_less, lemma_slide_toward, lemma_slide_upto, lemma_toward_back, toward};

verus! {

/// The steps of a rook, or those of a bishop.
pub open spec fn line_deltas(rook: bool) -> Seq<i8> {
    if rook {
        rook_deltas()
    } else {
        bishop_deltas()
    }
}

/// The squares that a rook or a bishop on `a` attacks.
pub open spec fn line_attacks(rook: bool, a: int, occupied: u64) -> u64 {
    sliding_attacks_spec(a, occupied, line_deltas(rook))
}

/// True for a direction along a rank or file, or for one along a diagonal.
pub open spec fn is_line(rook: bool, delta: int, dr: int, df: int) -> bool {
    &&& is_direction(delta, dr, df)
    &&& if rook {
        (dr == 0) != (df == 0)
    } else {
        dr != 0 && df != 0
    }
}

/// A step of rook or bishop, with the direction in which it goes.
pub struct Way {
    pub delta: int,
    pub dr: int,
    pub df: int,
}

/// A square that a rook or bishop attacks is reached in one of its
/// directions.
pub proof fn lemma_line_some(rook: bool, a: int, occupied: u64, b: int) -> (w: Way)
    requires
        0 <= b < 64,
        has_bit(line_attacks(rook, a, occupied), b),
    ensures
        is_line(rook, w.delta, w.dr, w.df),
        has_bit(slide(a, occupied, w.delta), b),
        toward(a, b, w.dr, w.df),
{
    let deltas = line_deltas(rook);
    lemma_sliding_some(a, occupied, deltas, b);
    let i = choose|i: int|
        0 <= i < deltas.len() && has_bit(slide(a, occupied, #[trigger] deltas[i] as int), b);
    let d = crate::magic::lemma_directions(deltas, i);
    let w = Way { delta: deltas[i] as int, dr: d.0, df: d.1 };
    lemma_slide_toward(a, occupied, w.delta, w.dr, w.df, b);
    w
}

/// A square that is reached in a direction of rook or bishop is attacked
/// by that piece.
pub proof fn lemma_line_has(rook: bool, a: int, occupied: u64, delta: int, dr: int, df: int, b: int)
    requires
        0 <= b < 64,
        is_line(rook, delta, dr, df),
        has_bit(slide(a, occupied, delta), b),
    ensures
        has_bit(line_attacks(rook, a, occupied), b),
{
    let deltas = line_deltas(rook);
    lemma_sliding_some(a, occupied, deltas, b);
    if rook {
        if delta == 8 {
            assert(deltas[0] as int == delta);
        } else if delta == 1 {
            assert(deltas[1] as int == delta);
        } else if delta == -8 {
            assert(deltas[2] as int == delta);
        } else {
            assert(deltas[3] as int == delta);
        }
    } else {
        if delta == 9 {
            assert(deltas[0] as int == delta);
        } else if delta == 7 {
            assert(deltas[1] as int == delta);
        } else if delta == -9 {
            assert(deltas[2] as int == delta);
        } else {
            assert(deltas[3] as int == delta);
        }
    }
}

/// No square is on a rank or file and on a diagonal with another square.
pub proof fn lemma_kinds_apart(a: int, b: int)
    requires
        0 <= b < 64,
    ensures
        !(has_bit(rook_attacks_spec(a, 0), b) && has_bit(bishop_attacks_spec(a, 0), b)),
{
    if has_bit(rook_attacks_spec(a, 0), b) && has_bit(bishop_attacks_spec(a, 0), b) {
        let r = lemma_line_some(true, a, 0, b);
        let d = lemma_line_some(false, a, 0, b);
        lemma_one_direction(a, b, r.dr, r.df, d.dr, d.df);
    }
}

/// A square that is attacked on the empty board by a rook or bishop on
/// either of two squares on one line of that piece lies on that line.
pub proof fn lemma_same_line(rook: bool, a: int, b: int, i: int, w: Way) -> (v: Way)
    requires
        0 <= i < 64,
        is_line(rook, w.delta, w.dr, w.df),
        toward(a, b, w.dr, w.df),
        has_bit(line_attacks(rook, a, 0), i),
        has_bit(line_attacks(rook, b, 0), i),
    ensures
        is_line(rook, v.delta, v.dr, v.df),
        has_bit(slide(a, 0, v.delta), i),
        toward(a, i, v.dr, v.df),
        (v.delta == w.delta && v.dr == w.dr && v.df == w.df) || (v.delta == -w.delta && v.dr
            == -w.dr && v.df == -w.df),
{
    let v = lemma_line_some(rook, a, 0, i);
    let u = lemma_line_some(rook, b, 0, i);
    v
}

/// A square between two squares lies on the way from the first to the
/// second: a rook or a bishop reaches it from the first on the empty
/// board, and goes on from it to the second.
pub proof fn lemma_between(a: int, b: int, i: int) -> (r: (bool, Way))
    requires
        0 <= a < 64,
        0 <= b < 64,
        0 <= i < 64,
        has_bit(between_spec(a, b), i),
    ensures
        is_line(r.0, r.1.delta, r.1.dr, r.1.df),
        has_bit(slide(a, 0, r.1.delta), i),
        has_bit(slide(i, 0, r.1.delta), b),
        has_bit(slide(a, 0, r.1.delta), b),
{
    lemma_no_bits(i);
    let rook = !has_bit(bishop_attacks_spec(a, 0), b);
    assert(has_bit(line_attacks(rook, a, 0), b));
    let first = line_attacks(rook, a, bit(b));
    let second = line_attacks(rook, b, bit(a));
    lemma_set_bits(first, second, i);
    let w = lemma_line_some(rook, a, 0, b);
    let v = lemma_line_some(rook, a, bit(b), i);
    let u = lemma_line_some(rook, b, bit(a), i);
    lemma_toward_back(a, b, w.dr, w.df);
    assert((v.dr == w.dr && v.df == w.df) || (v.dr == -w.dr && v.df == -w.df));
    if v.dr == -w.dr && v.df == -w.df {
        // The square would lie behind the first square, seen from the
        // second, which a piece from there does not reach.
        assert(u.dr == -w.dr && u.df == -w.df);
        assert(u.delta == -w.delta);
        lemma_slide_back(a, 0, w.delta, b);
        assert forall|j: int|
            0 <= j < 64 && crate::ray_laws::before(-w.delta, j, a) && has_bit(
                slide(b, 0, -w.delta),
                j,
            ) implies has_bit(0, j) == has_bit(bit(a), j) by {
            lemma_no_bits(j);
            lemma_single(a, j);
        }
        lemma_slide_upto(b, 0, bit(a), -w.delta, a);
        lemma_single(a, a);
        lemma_slide_last(b, bit(a), -w.delta, a, i);
        lemma_slide_far(a, bit(b), v.delta, i);
        if i != a {
            lemma_slide_far(i, bit(a), -w.delta, a);
        }
        assert(false);
    }
    assert(v.delta == w.delta);
    assert forall|j: int| 0 <= j < 64 && has_bit(0, j) implies has_bit(bit(b), j) by {
        lemma_no_bits(j);
    }
    lemma_slide_less(a, 0, bit(b), w.delta, i);
    assert forall|j: int|
        0 <= j < 64 && crate::ray_laws::before(w.delta, j, b) && has_bit(slide(a, 0, w.delta), j)
        implies has_bit(0, j) == has_bit(bit(b), j) by {
        lemma_no_bits(j);
        lemma_single(b, j);
    }
    lemma_slide_upto(a, 0, bit(b), w.delta, b);
    lemma_single(b, b);
    lemma_slide_last(a, bit(b), w.delta, b, i);
    lemma_slide_far(b, bit(a), u.delta, i);
    lemma_slide_less(i, 0, bit(b), w.delta, b);
    (rook, w)
}

/// A square on the way from one square to another, on the empty board, is
/// between the two.
pub proof fn lemma_between_has(rook: bool, a: int, b: int, i: int, delta: int, dr: int, df: int)
    requires
        0 <= a < 64,
        0 <= b < 64,
        0 <= i < 64,
        is_line(rook, delta, dr, df),
        has_bit(slide(a, 0, delta), i),
        has_bit(slide(i, 0, delta), b),
    ensures
        has_bit(between_spec(a, b), i),
        has_bit(slide(a, 0, delta), b),
{
    lemma_no_bits(i);
    crate::ray_laws::lemma_slide_join(a, 0, delta, i, b);
    lemma_line_has(rook, a, 0, delta, dr, df, b);
    lemma_kinds_apart(a, b);
    lemma_slide_far(a, 0, delta, i);
    lemma_slide_far(i, 0, delta, b);
    // From the first square the piece reaches the square before the second.
    assert forall|j: int|
        0 <= j < 64 && crate::ray_laws::before(delta, j, i) && has_bit(slide(a, 0, delta), j)
        implies has_bit(0, j) == has_bit(bit(b), j) by {
        lemma_no_bits(j);
        lemma_single(b, j);
    }
    lemma_slide_upto(a, 0, bit(b), delta, i);
    lemma_line_has(rook, a, bit(b), delta, dr, df, i);
    // From the second square it reaches the square before the first.
    lemma_slide_back(i, 0, delta, b);
    lemma_slide_back(a, 0, delta, i);
    assert forall|j: int|
        0 <= j < 64 && crate::ray_laws::before(-delta, j, i) && has_bit(slide(b, 0, -delta), j)
        implies has_bit(0, j) == has_bit(bit(a), j) by {
        lemma_no_bits(j);
        lemma_single(a, j);
    }
    lemma_slide_upto(b, 0, bit(a), -delta, i);
    lemma_line_has(rook, b, bit(a), -delta, -dr, -df, i);
    lemma_set_bits(line_attacks(rook, a, bit(b)), line_attacks(rook, b, bit(a)), i);
}

/// A third square on the line through two squares is attacked on the empty
/// board by a rook or bishop on either of them, as the two attack each
/// other.
pub proof fn lemma_ray(a: int, b: int, i: int) -> (rook: bool)
    requires
        0 <= a < 64,
        0 <= b < 64,
        0 <= i < 64,
        has_bit(ray_spec(a, b), i),
        i != a,
        i != b,
    ensures
        has_bit(line_attacks(rook, a, 0), b),
        has_bit(line_attacks(rook, a, 0), i),
        has_bit(line_attacks(rook, b, 0), i),
{
    lemma_no_bits(i);
    let rook = !has_bit(bishop_attacks_spec(a, 0), b);
    let both = line_attacks(rook, a, 0) & line_attacks(rook, b, 0);
    lemma_set_bits(both | bit(a), bit(b), i);
    lemma_set_bits(both, bit(a), i);
    lemma_set_bits(line_attacks(rook, a, 0), line_attacks(rook, b, 0), i);
    lemma_single(a, i);
    lemma_single(b, i);
    rook
}

/// A square that a rook or bishop attacks on the empty board from either
/// of two squares that attack each other is on the line through the two.
pub proof fn lemma_ray_has(rook: bool, a: int, b: int, i: int)
    requires
        0 <= a < 64,
        0 <= b < 64,
        0 <= i < 64,
        has_bit(line_attacks(rook, a, 0), b),
        has_bit(line_attacks(rook, a, 0), i),
        has_bit(line_attacks(rook, b, 0), i),
    ensures
        has_bit(ray_spec(a, b), i),
{
    lemma_kinds_apart(a, b);
    let both = line_attacks(rook, a, 0) & line_attacks(rook, b, 0);
    lemma_set_bits(both | bit(a), bit(b), i);
    lemma_set_bits(both, bit(a), i);
    lemma_set_bits(line_attacks(rook, a, 0), line_attacks(rook, b, 0), i);
}

/// A knight attacks squares that are one rank and two files away, or two
/// ranks and one file.
pub proof fn lemma_knight_step(s: int, i: int)
    requires
        0 <= i < 64,
        has_bit(knight_attacks_spec(s), i),
    ensures
        0 <= s < 64,
        ({
            let r = i / 8 - s / 8;
            let f = i % 8 - s % 8;
            ((r == 1 || r == -1) && (f == 2 || f == -2)) || ((r == 2 || r == -2) && (f == 1 || f
                == -1))
        }),
{
    lemma_sliding_some(s, ALL_SQUARES, knight_deltas(), i);
    let j = choose|j: int|
        0 <= j < 8 && has_bit(slide(s, ALL_SQUARES, #[trigger] knight_deltas()[j] as int), i);
    lemma_step_member(s, knight_deltas()[j] as int, i);
}

/// A king attacks the squares beside its own.
pub proof fn lemma_king_step(s: int, i: int)
    requires
        0 <= i < 64,
        has_bit(king_attacks_spec(s), i),
    ensures
        0 <= s < 64,
        -1 <= i / 8 - s / 8 <= 1,
        -1 <= i % 8 - s % 8 <= 1,
        i != s,
{
    lemma_sliding_some(s, ALL_SQUARES, king_deltas(), i);
    let j = choose|j: int|
        0 <= j < 8 && has_bit(slide(s, ALL_SQUARES, #[trigger] king_deltas()[j] as int), i);
    lemma_step_member(s, king_deltas()[j] as int, i);
}

} // verus!
