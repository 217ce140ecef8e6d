//! A knight, bishop, rook or queen attacks a square exactly if such a
//! piece on that square would attack it.

use vstd::prelude::*;
use crate::attacks::{
    attacks_spec, bishop_attacks_spec, bishop_deltas, knight_attacks_spec, knight_deltas,
    rook_attacks_spec, rook_deltas, slide, sliding_attacks_spec, ALL_SQUARES,
};
use crate::bitboard::{bit, has_bit, lemma_no_bits};
use crate::color::Color;
use crate::laws::lemma_single;
use crate::magic::{can_step, lemma_set_bits};
use crate::types::{Piece, Role};

verus! {

/// A piece that walks reaches a square if that is the next one, or if the
/// next one is empty and the square is reached from there.
pub proof fn lemma_slide_one(a: int, occupied: u64, delta: int, b: int)
    requires
        0 <= b < 64,
    ensures
        has_bit(slide(a, occupied, delta), b) <==> can_step(a, delta) && (b == a + delta || (
        !has_bit(occupied, a + delta) && has_bit(slide(a + delta, occupied, delta), b))),
{
    if can_step(a, delta) {
        let n = a + delta;
        lemma_single(n, b);
        lemma_set_bits(bit(n), slide(n, occupied, delta), b);
    } else {
        lemma_no_bits(b);
    }
}

/// A piece that reaches an empty square reaches the next square as well.
pub proof fn lemma_slide_on(a: int, occupied: u64, delta: int, x: int)
    requires
        0 <= x < 64,
        has_bit(slide(a, occupied, delta), x),
        !has_bit(occupied, x),
        can_step(x, delta),
    ensures
        has_bit(slide(a, occupied, delta), x + delta),
    decreases
        (if delta > 0 {
            64 - a
        } else {
            a + 1
        }),
{
    lemma_slide_one(a, occupied, delta, x);
    lemma_slide_one(a, occupied, delta, x + delta);
    if x == a + delta {
        lemma_slide_one(x, occupied, delta, x + delta);
    } else {
        lemma_slide_on(a + delta, occupied, delta, x);
    }
}

/// A square that a walking piece reaches is one from which such a piece
/// reaches back.
pub proof fn lemma_slide_back(a: int, occupied: u64, delta: int, b: int)
    requires
        0 <= a < 64,
        0 <= b < 64,
        has_bit(slide(a, occupied, delta), b),
    ensures
        has_bit(slide(b, occupied, -delta), a),
    decreases
        (if delta > 0 {
            64 - a
        } else {
            a + 1
        }),
{
    lemma_slide_one(a, occupied, delta, b);
    let n = a + delta;
    if b == n {
        lemma_slide_one(b, occupied, -delta, a);
    } else {
        lemma_slide_back(n, occupied, delta, b);
        lemma_slide_on(b, occupied, -delta, n);
    }
}

/// A piece reaches a square along some steps exactly if it reaches it along
/// one of them.
pub proof fn lemma_sliding_some(a: int, occupied: u64, deltas: Seq<i8>, b: int)
    requires
        0 <= b < 64,
    ensures
        has_bit(sliding_attacks_spec(a, occupied, deltas), b) <==> exists|i: int|
            0 <= i < deltas.len() && has_bit(slide(a, occupied, #[trigger] deltas[i] as int), b),
    decreases deltas.len(),
{
    if deltas.len() == 0 {
        lemma_no_bits(b);
    } else {
        let front = deltas.drop_last();
        lemma_sliding_some(a, occupied, front, b);
        lemma_set_bits(
            sliding_attacks_spec(a, occupied, front),
            slide(a, occupied, deltas.last() as int),
            b,
        );
        if has_bit(sliding_attacks_spec(a, occupied, deltas), b) {
            if has_bit(slide(a, occupied, deltas.last() as int), b) {
                assert(has_bit(slide(a, occupied, deltas[deltas.len() - 1] as int), b));
            } else {
                let i = choose|i: int|
                    0 <= i < front.len() && has_bit(
                        slide(a, occupied, #[trigger] front[i] as int),
                        b,
                    );
                assert(has_bit(slide(a, occupied, deltas[i] as int), b));
            }
        }
        if exists|i: int|
            0 <= i < deltas.len() && has_bit(slide(a, occupied, #[trigger] deltas[i] as int), b) {
            let i = choose|i: int|
                0 <= i < deltas.len() && has_bit(
                    slide(a, occupied, #[trigger] deltas[i] as int),
                    b,
                );
            if i < deltas.len() - 1 {
                assert(has_bit(slide(a, occupied, front[i] as int), b));
            }
        }
    }
}

/// True if with each step the list holds the step back.
pub open spec fn both_ways(deltas: Seq<i8>) -> bool {
    forall|i: int|
        0 <= i < deltas.len() ==> exists|j: int|
            0 <= j < deltas.len() && #[trigger] deltas[j] as int == -(#[trigger] deltas[i] as int)
}

/// Along steps that go both ways, a piece reaches a square exactly if such
/// a piece reaches back from there.
pub proof fn lemma_sliding_back(a: int, occupied: u64, deltas: Seq<i8>, b: int)
    requires
        0 <= a < 64,
        0 <= b < 64,
        both_ways(deltas),
        has_bit(sliding_attacks_spec(a, occupied, deltas), b),
    ensures
        has_bit(sliding_attacks_spec(b, occupied, deltas), a),
{
    lemma_sliding_some(a, occupied, deltas, b);
    lemma_sliding_some(b, occupied, deltas, a);
    let i = choose|i: int|
        0 <= i < deltas.len() && has_bit(slide(a, occupied, #[trigger] deltas[i] as int), b);
    lemma_slide_back(a, occupied, deltas[i] as int, b);
    let j = choose|j: int| 0 <= j < deltas.len() && #[trigger] deltas[j] as int == -(deltas[i] as int);
    assert(has_bit(slide(b, occupied, deltas[j] as int), a));
}

/// The steps of the list go both ways.
pub proof fn lemma_rook_deltas_both_ways()
    ensures
        both_ways(rook_deltas()),
{
    assert forall|i: int| 0 <= i < 4 implies exists|j: int|
        0 <= j < 4 && #[trigger] rook_deltas()[j] as int == -(#[trigger] rook_deltas()[i] as int) by {
        if i == 0 {
            assert(rook_deltas()[2] as int == -(rook_deltas()[0] as int));
        } else if i == 1 {
            assert(rook_deltas()[3] as int == -(rook_deltas()[1] as int));
        } else if i == 2 {
            assert(rook_deltas()[0] as int == -(rook_deltas()[2] as int));
        } else if i == 3 {
            assert(rook_deltas()[1] as int == -(rook_deltas()[3] as int));
        }
    }
}

/// The steps of the list go both ways.
pub proof fn lemma_bishop_deltas_both_ways()
    ensures
        both_ways(bishop_deltas()),
{
    assert forall|i: int| 0 <= i < 4 implies exists|j: int|
        0 <= j < 4 && #[trigger] bishop_deltas()[j] as int == -(#[trigger] bishop_deltas()[i] as int) by {
        if i == 0 {
            assert(bishop_deltas()[2] as int == -(bishop_deltas()[0] as int));
        } else if i == 1 {
            assert(bishop_deltas()[3] as int == -(bishop_deltas()[1] as int));
        } else if i == 2 {
            assert(bishop_deltas()[0] as int == -(bishop_deltas()[2] as int));
        } else if i == 3 {
            assert(bishop_deltas()[1] as int == -(bishop_deltas()[3] as int));
        }
    }
}

/// The steps of the list go both ways.
pub proof fn lemma_knight_deltas_both_ways()
    ensures
        both_ways(knight_deltas()),
{
    assert forall|i: int| 0 <= i < 8 implies exists|j: int|
        0 <= j < 8 && #[trigger] knight_deltas()[j] as int == -(#[trigger] knight_deltas()[i] as int) by {
        if i == 0 {
            assert(knight_deltas()[4] as int == -(knight_deltas()[0] as int));
        } else if i == 1 {
            assert(knight_deltas()[5] as int == -(knight_deltas()[1] as int));
        } else if i == 2 {
            assert(knight_deltas()[6] as int == -(knight_deltas()[2] as int));
        } else if i == 3 {
            assert(knight_deltas()[7] as int == -(knight_deltas()[3] as int));
        } else if i == 4 {
            assert(knight_deltas()[0] as int == -(knight_deltas()[4] as int));
        } else if i == 5 {
            assert(knight_deltas()[1] as int == -(knight_deltas()[5] as int));
        } else if i == 6 {
            assert(knight_deltas()[2] as int == -(knight_deltas()[6] as int));
        } else if i == 7 {
            assert(knight_deltas()[3] as int == -(knight_deltas()[7] as int));
        }
    }
}

/// A knight, bishop, rook or queen on `a` attacks `b` exactly if such a
/// piece on `b` attacks `a`.
pub proof fn lemma_attacks_back(a: int, b: int, role: Role, c: Color, d: Color, occupied: u64)
    requires
        0 <= a < 64,
        0 <= b < 64,
        role == Role::Knight || role == Role::Bishop || role == Role::Rook || role == Role::Queen,
    ensures
        has_bit(attacks_spec(a, Piece { color: c, role }, occupied), b) <==> has_bit(
            attacks_spec(b, Piece { color: d, role }, occupied),
            a,
        ),
{
    lemma_rook_deltas_both_ways();
    lemma_bishop_deltas_both_ways();
    lemma_knight_deltas_both_ways();
    lemma_set_bits(rook_attacks_spec(a, occupied), bishop_attacks_spec(a, occupied), b);
    lemma_set_bits(rook_attacks_spec(b, occupied), bishop_attacks_spec(b, occupied), a);
    if has_bit(rook_attacks_spec(a, occupied), b) {
        lemma_sliding_back(a, occupied, rook_deltas(), b);
    }
    if has_bit(rook_attacks_spec(b, occupied), a) {
        lemma_sliding_back(b, occupied, rook_deltas(), a);
    }
    if has_bit(bishop_attacks_spec(a, occupied), b) {
        lemma_sliding_back(a, occupied, bishop_deltas(), b);
    }
    if has_bit(bishop_attacks_spec(b, occupied), a) {
        lemma_sliding_back(b, occupied, bishop_deltas(), a);
    }
    if has_bit(knight_attacks_spec(a), b) {
        lemma_sliding_back(a, ALL_SQUARES, knight_deltas(), b);
    }
    if has_bit(knight_attacks_spec(b), a) {
        lemma_sliding_back(b, ALL_SQUARES, knight_deltas(), a);
    }
}

} // verus!
