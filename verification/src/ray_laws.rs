//! How far a piece walks when the occupied squares change.

use vstd::prelude::*;
use crate::attack_laws::lemma_slide_one;
use crate::attacks::slide;
use crate::bitboard::{bit, has_bit, lemma_no_bits};
use crate::laws::lemma_single;
use crate::magic::{can_step, is_direction, lemma_set_bits, lemma_step};

verus! {

/// A piece that walks forward reaches higher squares only, and one that
/// walks backward lower squares only.
pub proof fn lemma_slide_far(a: int, occupied: u64, delta: int, b: int)
    requires
        0 <= b < 64,
        has_bit(slide(a, occupied, delta), b),
    ensures
        0 <= a < 64,
        delta > 0 ==> b > a,
        delta < 0 ==> b < a,
        delta != 0,
    decreases
        (if delta > 0 {
            64 - a
        } else {
            a + 1
        }),
{
    lemma_slide_one(a, occupied, delta, b);
    if b != a + delta {
        lemma_slide_far(a + delta, occupied, delta, b);
    }
}

/// A piece walks the same way on two boards that are occupied alike on the
/// squares that it would reach on the empty board.
pub proof fn lemma_slide_agree(a: int, first: u64, second: u64, delta: int)
    requires
        forall|i: int|
            0 <= i < 64 && has_bit(slide(a, 0, delta), i) ==> has_bit(first, i) == has_bit(
                second,
                i,
            ),
    ensures
        slide(a, first, delta) == slide(a, second, delta),
    decreases
        (if delta > 0 {
            64 - a
        } else {
            a + 1
        }),
{
    if can_step(a, delta) {
        let n = a + delta;
        lemma_no_bits(n);
        lemma_slide_one(a, 0, delta, n);
        assert forall|i: int| 0 <= i < 64 && has_bit(slide(n, 0, delta), i) implies has_bit(
            first,
            i,
        ) == has_bit(second, i) by {
            lemma_slide_one(a, 0, delta, i);
        }
        lemma_slide_agree(n, first, second, delta);
    }
}

/// The square from which a piece walks does not matter to its way, be it
/// occupied or not.
pub proof fn lemma_slide_origin(a: int, occupied: u64, delta: int)
    requires
        0 <= a < 64,
    ensures
        slide(a, occupied & !bit(a), delta) == slide(a, occupied, delta),
{
    assert forall|i: int| 0 <= i < 64 && has_bit(slide(a, 0, delta), i) implies has_bit(
        occupied & !bit(a),
        i,
    ) == has_bit(occupied, i) by {
        lemma_slide_far(a, 0, delta, i);
        lemma_set_bits(occupied, !bit(a), i);
        lemma_set_bits(bit(a), 0, i);
        lemma_single(a, i);
    }
    lemma_slide_agree(a, occupied & !bit(a), occupied, delta);
}

/// Where more squares are occupied, a piece reaches no further.
pub proof fn lemma_slide_less(a: int, fewer: u64, more: u64, delta: int, b: int)
    requires
        0 <= b < 64,
        forall|i: int| 0 <= i < 64 && has_bit(fewer, i) ==> has_bit(more, i),
        has_bit(slide(a, more, delta), b),
    ensures
        has_bit(slide(a, fewer, delta), b),
    decreases
        (if delta > 0 {
            64 - a
        } else {
            a + 1
        }),
{
    lemma_slide_one(a, more, delta, b);
    lemma_slide_one(a, fewer, delta, b);
    if b != a + delta {
        lemma_slide_less(a + delta, fewer, more, delta, b);
    }
}

/// A square that a piece reaches only once another square is emptied lies
/// behind that square: the piece reaches the emptied square, which was
/// occupied, and the other square is reached from there.
pub proof fn lemma_unblocked(a: int, occupied: u64, k: int, delta: int, x: int)
    requires
        0 <= k < 64,
        0 <= x < 64,
        has_bit(slide(a, occupied & !bit(k), delta), x),
        !has_bit(slide(a, occupied, delta), x),
    ensures
        has_bit(slide(a, occupied, delta), k),
        has_bit(occupied, k),
        has_bit(slide(k, occupied, delta), x),
    decreases
        (if delta > 0 {
            64 - a
        } else {
            a + 1
        }),
{
    let emptied = occupied & !bit(k);
    let n = a + delta;
    lemma_slide_one(a, emptied, delta, x);
    lemma_slide_one(a, occupied, delta, x);
    lemma_slide_one(a, occupied, delta, k);
    lemma_set_bits(occupied, !bit(k), n);
    lemma_set_bits(bit(k), 0, n);
    lemma_single(k, n);
    if n == k {
        lemma_slide_origin(k, occupied, delta);
    } else {
        lemma_unblocked(n, occupied, k, delta, x);
    }
}

/// Of two squares that a piece reaches, an occupied one is the last: the
/// other square is that square, or the piece reaches that square from the
/// other.
pub proof fn lemma_slide_last(a: int, occupied: u64, delta: int, y: int, z: int)
    requires
        0 <= y < 64,
        0 <= z < 64,
        has_bit(slide(a, occupied, delta), y),
        has_bit(occupied, y),
        has_bit(slide(a, occupied, delta), z),
    ensures
        z == y || has_bit(slide(z, occupied, delta), y),
    decreases
        (if delta > 0 {
            64 - a
        } else {
            a + 1
        }),
{
    let n = a + delta;
    lemma_slide_one(a, occupied, delta, y);
    lemma_slide_one(a, occupied, delta, z);
    if z == n {
    } else if y == n {
    } else {
        lemma_slide_last(n, occupied, delta, y, z);
    }
}

/// A piece that reaches an empty square reaches what is reached from
/// there.
pub proof fn lemma_slide_join(a: int, occupied: u64, delta: int, b: int, c: int)
    requires
        0 <= b < 64,
        0 <= c < 64,
        has_bit(slide(a, occupied, delta), b),
        !has_bit(occupied, b),
        has_bit(slide(b, occupied, delta), c),
    ensures
        has_bit(slide(a, occupied, delta), c),
    decreases
        (if delta > 0 {
            64 - a
        } else {
            a + 1
        }),
{
    let n = a + delta;
    lemma_slide_one(a, occupied, delta, b);
    lemma_slide_one(a, occupied, delta, c);
    if b != n {
        lemma_slide_join(n, occupied, delta, b, c);
    }
}

/// A piece that reaches a square has reached every square from which it
/// goes on to that square.
pub proof fn lemma_slide_part(a: int, occupied: u64, delta: int, b: int, c: int)
    requires
        0 <= b < 64,
        0 <= c < 64,
        has_bit(slide(a, occupied, delta), b),
        has_bit(slide(a, occupied, delta), c),
        delta > 0 ==> b < c,
        delta < 0 ==> b > c,
    ensures
        !has_bit(occupied, b),
        has_bit(slide(b, occupied, delta), c),
    decreases
        (if delta > 0 {
            64 - a
        } else {
            a + 1
        }),
{
    let n = a + delta;
    lemma_slide_one(a, occupied, delta, b);
    lemma_slide_one(a, occupied, delta, c);
    lemma_slide_far(a, occupied, delta, b);
    if c == n {
        lemma_slide_far(n, occupied, delta, b);
    } else if b != n {
        lemma_slide_part(n, occupied, delta, b, c);
    }
}

/// True if the square with index `i` lies before the one with index `b`
/// for a piece that walks in steps of `delta`.
pub open spec fn before(delta: int, i: int, b: int) -> bool {
    if delta > 0 {
        i < b
    } else {
        i > b
    }
}

/// A piece reaches a square on every board that is occupied like this one
/// on the squares before that square.
pub proof fn lemma_slide_upto(a: int, first: u64, second: u64, delta: int, b: int)
    requires
        0 <= b < 64,
        has_bit(slide(a, first, delta), b),
        forall|i: int|
            0 <= i < 64 && before(delta, i, b) && has_bit(slide(a, 0, delta), i) ==> has_bit(
                first,
                i,
            ) == has_bit(second, i),
    ensures
        has_bit(slide(a, second, delta), b),
    decreases
        (if delta > 0 {
            64 - a
        } else {
            a + 1
        }),
{
    let n = a + delta;
    lemma_slide_one(a, first, delta, b);
    lemma_slide_one(a, second, delta, b);
    if b != n {
        lemma_no_bits(n);
        lemma_slide_one(a, 0, delta, n);
        lemma_slide_far(n, first, delta, b);
        assert forall|i: int|
            0 <= i < 64 && before(delta, i, b) && has_bit(slide(n, 0, delta), i) implies has_bit(
            first,
            i,
        ) == has_bit(second, i) by {
            lemma_slide_one(a, 0, delta, i);
        }
        lemma_slide_upto(n, first, second, delta, b);
    }
}

/// The squares before a square that a piece reaches are empty.
pub proof fn lemma_slide_clear(a: int, occupied: u64, delta: int, b: int, i: int)
    requires
        0 <= b < 64,
        0 <= i < 64,
        has_bit(slide(a, occupied, delta), b),
        has_bit(slide(a, 0, delta), i),
        before(delta, i, b),
    ensures
        !has_bit(occupied, i),
        has_bit(slide(a, occupied, delta), i),
    decreases
        (if delta > 0 {
            64 - a
        } else {
            a + 1
        }),
{
    let n = a + delta;
    lemma_no_bits(n);
    lemma_slide_one(a, occupied, delta, b);
    lemma_slide_one(a, occupied, delta, i);
    lemma_slide_one(a, 0, delta, i);
    if b == n {
        lemma_slide_far(a, 0, delta, i);
        if i != n {
            lemma_slide_far(n, 0, delta, i);
        }
    } else if i != n {
        lemma_slide_clear(n, occupied, delta, b, i);
    }
}

/// True if the square `b` lies in the direction that changes the rank by
/// `dr` and the file by `df` with each step, seen from `a`: on the same
/// rank, file or diagonal, on the side that the direction points to.
pub open spec fn toward(a: int, b: int, dr: int, df: int) -> bool {
    let r = b / 8 - a / 8;
    let f = b % 8 - a % 8;
    &&& 0 <= a < 64
    &&& 0 <= b < 64
    &&& (dr == 0 ==> r == 0)
    &&& (dr == 1 ==> r >= 1)
    &&& (dr == -1 ==> r <= -1)
    &&& (df == 0 ==> f == 0)
    &&& (df == 1 ==> f >= 1)
    &&& (df == -1 ==> f <= -1)
    &&& (dr != 0 && dr == df ==> r == f)
    &&& (dr != 0 && dr == -df ==> r == -f)
}

/// A piece that walks in a direction reaches squares in that direction.
pub proof fn lemma_slide_toward(a: int, occupied: u64, delta: int, dr: int, df: int, b: int)
    requires
        0 <= b < 64,
        is_direction(delta, dr, df),
        has_bit(slide(a, occupied, delta), b),
    ensures
        toward(a, b, dr, df),
    decreases
        (if delta > 0 {
            64 - a
        } else {
            a + 1
        }),
{
    let n = a + delta;
    lemma_slide_one(a, occupied, delta, b);
    lemma_step(a, delta, dr, df);
    if b != n {
        lemma_slide_toward(n, occupied, delta, dr, df, b);
    }
}

/// A piece that walks in a direction on the empty board reaches every
/// square in that direction.
pub proof fn lemma_toward_slide(a: int, delta: int, dr: int, df: int, b: int)
    requires
        is_direction(delta, dr, df),
        toward(a, b, dr, df),
    ensures
        has_bit(slide(a, 0, delta), b),
    decreases
        (if delta > 0 {
            64 - a
        } else {
            a + 1
        }),
{
    let n = a + delta;
    assert(can_step(a, delta));
    lemma_step(a, delta, dr, df);
    lemma_no_bits(n);
    lemma_slide_one(a, 0, delta, b);
    if b != n {
        lemma_toward_slide(n, delta, dr, df, b);
    }
}

/// A square lies in one direction at most from another square.
pub proof fn lemma_one_direction(a: int, b: int, dr: int, df: int, er: int, ef: int)
    requires
        -1 <= dr <= 1,
        -1 <= df <= 1,
        -1 <= er <= 1,
        -1 <= ef <= 1,
        toward(a, b, dr, df),
        toward(a, b, er, ef),
    ensures
        dr == er,
        df == ef,
        a != b || (dr == 0 && df == 0),
{
}

/// The square from which a direction is seen lies in the opposite
/// direction.
pub proof fn lemma_toward_back(a: int, b: int, dr: int, df: int)
    requires
        toward(a, b, dr, df),
    ensures
        toward(b, a, -dr, -df),
{
}

} // verus!
