//! Counting the squares of a set one by one, and how many squares matter
//! for the attacks of a rook or a bishop.

use vstd::prelude::*;
use vstd::arithmetic::power2::{lemma2_to64, lemma2_to64_rest, lemma_pow2_strictly_increases, lemma_pow2_unfold, pow2};
use crate::bitboard::{
    bit, count_spec, drop_lsb, extract_spec, has_bit, lemma_count_bound, lemma_lsb,
    lemma_no_bits, lsb,
};
use crate::laws::lemma_single;
use crate::line_laws::{lemma_line_has, lemma_line_some, line_attacks, line_deltas};
use crate::magic::{edges, lemma_edges, lemma_set_bits, relevant_mask};
use crate::ray_laws::{lemma_toward_slide, toward};

verus! {

/// The number of squares of a set among the first `n` squares.
pub open spec fn ones(x: u64, n: int) -> int
    decreases n,
{
    if n <= 0 {
        0
    } else {
        ones(x, n - 1) + (if has_bit(x, n - 1) {
            1int
        } else {
            0
        })
    }
}

/// The empty set has no squares.
pub proof fn lemma_ones_none(n: int)
    ensures
        ones(0, n) == 0,
    decreases n,
{
    if n > 0 {
        lemma_ones_none(n - 1);
        lemma_no_bits(n - 1);
    }
}

/// A set without one of its squares has one square less.
pub proof fn lemma_ones_without(x: u64, t: int, n: int)
    requires
        0 <= t < 64,
        0 <= n <= 64,
    ensures
        ones(x & !bit(t), n) == ones(x, n) - (if t < n && has_bit(x, t) {
            1int
        } else {
            0
        }),
    decreases n,
{
    if n > 0 {
        lemma_ones_without(x, t, n - 1);
        lemma_set_bits(x, !bit(t), n - 1);
        lemma_set_bits(bit(t), 0, n - 1);
        lemma_single(t, n - 1);
    }
}

/// The number of squares of a set is the number of the squares of the
/// board that are in it.
pub proof fn lemma_count_ones(x: u64)
    ensures
        count_spec(x) == ones(x, 64),
    decreases x,
{
    if x == 0 {
        lemma_ones_none(64);
    } else {
        lemma_lsb(x);
        lemma_count_ones(drop_lsb(x));
        lemma_ones_without(x, lsb(x), 64);
    }
}

/// One or nothing, for a square in the set or not.
pub open spec fn one_if(x: u64, i: int) -> int {
    if has_bit(x, i) {
        1
    } else {
        0
    }
}

/// The squares of a set on one rank are counted file by file.
pub proof fn lemma_ones_row(x: u64, rank: int)
    requires
        0 <= rank < 8,
    ensures
        ones(x, 8 * rank + 8) == ones(x, 8 * rank) + one_if(x, 8 * rank) + one_if(x, 8 * rank + 1)
            + one_if(x, 8 * rank + 2) + one_if(x, 8 * rank + 3) + one_if(x, 8 * rank + 4) + one_if(
            x,
            8 * rank + 5,
        ) + one_if(x, 8 * rank + 6) + one_if(x, 8 * rank + 7),
{
    let b = 8 * rank;
    assert(ones(x, b + 1) == ones(x, b) + one_if(x, b));
    assert(ones(x, b + 2) == ones(x, b + 1) + one_if(x, b + 1));
    assert(ones(x, b + 3) == ones(x, b + 2) + one_if(x, b + 2));
    assert(ones(x, b + 4) == ones(x, b + 3) + one_if(x, b + 3));
    assert(ones(x, b + 5) == ones(x, b + 4) + one_if(x, b + 4));
    assert(ones(x, b + 6) == ones(x, b + 5) + one_if(x, b + 5));
    assert(ones(x, b + 7) == ones(x, b + 6) + one_if(x, b + 6));
    assert(ones(x, b + 8) == ones(x, b + 7) + one_if(x, b + 7));
}

/// True if a rook or bishop on `t` reaches `i` on the empty board: the
/// squares share a rank or file, or a diagonal.
pub open spec fn reached_at(rook: bool, t: int, i: int) -> bool {
    if rook {
        i != t && (i / 8 == t / 8 || i % 8 == t % 8)
    } else {
        i / 8 != t / 8 && (i / 8 - t / 8 == i % 8 - t % 8 || i / 8 - t / 8 == t % 8 - i % 8)
    }
}

/// True if `i` is one of the squares that matter for a rook or bishop on
/// `t`: it is reached and not on an edge of the board, unless along that
/// edge.
pub open spec fn relevant_at(rook: bool, t: int, i: int) -> bool {
    if rook {
        (i / 8 == t / 8 && i % 8 != t % 8 && 1 <= i % 8 <= 6) || (i % 8 == t % 8 && i / 8 != t / 8
            && 1 <= i / 8 <= 6)
    } else {
        reached_at(rook, t, i) && 1 <= i / 8 <= 6 && 1 <= i % 8 <= 6
    }
}

/// The squares that a rook or bishop reaches on the empty board.
pub proof fn lemma_reached(rook: bool, t: int, i: int)
    requires
        0 <= t < 64,
        0 <= i < 64,
    ensures
        has_bit(line_attacks(rook, t, 0), i) <==> reached_at(rook, t, i),
{
    if has_bit(line_attacks(rook, t, 0), i) {
        let w = lemma_line_some(rook, t, 0, i);
    }
    if reached_at(rook, t, i) {
        let r = i / 8 - t / 8;
        let f = i % 8 - t % 8;
        let dr: int = if r > 0 {
            1
        } else if r < 0 {
            -1
        } else {
            0
        };
        let df: int = if f > 0 {
            1
        } else if f < 0 {
            -1
        } else {
            0
        };
        let delta = 8 * dr + df;
        assert(toward(t, i, dr, df));
        lemma_toward_slide(t, delta, dr, df, i);
        lemma_line_has(rook, t, 0, delta, dr, df, i);
    }
}

/// The squares that matter for a rook or bishop.
pub proof fn lemma_relevant(rook: bool, t: int, i: int)
    requires
        0 <= t < 64,
        0 <= i < 64,
    ensures
        has_bit(relevant_mask(t, line_deltas(rook)), i) <==> relevant_at(rook, t, i),
{
    lemma_reached(rook, t, i);
    lemma_edges(t, i);
    lemma_set_bits(line_attacks(rook, t, 0), !edges(t), i);
    lemma_set_bits(edges(t), 0, i);
}

/// One or nothing, for a true or a false statement.
pub open spec fn one_for(b: bool) -> int {
    if b {
        1
    } else {
        0
    }
}

/// The number of squares on a rank that matter for a rook or bishop on
/// `t`.
pub open spec fn relevant_row(rook: bool, t: int, rank: int) -> int {
    let r = t / 8;
    let f = t % 8;
    if rook {
        if rank == r {
            if 1 <= f <= 6 {
                5
            } else {
                6
            }
        } else {
            one_for(1 <= rank <= 6)
        }
    } else {
        if rank == r || rank < 1 || rank > 6 {
            0
        } else {
            one_for(1 <= f + (rank - r) <= 6) + one_for(1 <= f - (rank - r) <= 6)
        }
    }
}

/// The squares of a rank that matter for a rook or bishop, counted.
pub proof fn lemma_relevant_row(rook: bool, t: int, rank: int)
    requires
        0 <= t < 64,
        0 <= rank < 8,
    ensures
        ones(relevant_mask(t, line_deltas(rook)), 8 * rank + 8) == ones(
            relevant_mask(t, line_deltas(rook)),
            8 * rank,
        ) + relevant_row(rook, t, rank),
{
    let x = relevant_mask(t, line_deltas(rook));
    let b = 8 * rank;
    lemma_ones_row(x, rank);
    lemma_relevant(rook, t, b);
    lemma_relevant(rook, t, b + 1);
    lemma_relevant(rook, t, b + 2);
    lemma_relevant(rook, t, b + 3);
    lemma_relevant(rook, t, b + 4);
    lemma_relevant(rook, t, b + 5);
    lemma_relevant(rook, t, b + 6);
    lemma_relevant(rook, t, b + 7);
    assert(one_if(x, b) == one_for(relevant_at(rook, t, b)));
    assert(one_if(x, b + 1) == one_for(relevant_at(rook, t, b + 1)));
    assert(one_if(x, b + 2) == one_for(relevant_at(rook, t, b + 2)));
    assert(one_if(x, b + 3) == one_for(relevant_at(rook, t, b + 3)));
    assert(one_if(x, b + 4) == one_for(relevant_at(rook, t, b + 4)));
    assert(one_if(x, b + 5) == one_for(relevant_at(rook, t, b + 5)));
    assert(one_if(x, b + 6) == one_for(relevant_at(rook, t, b + 6)));
    assert(one_if(x, b + 7) == one_for(relevant_at(rook, t, b + 7)));
    lemma_row_sum(rook, t, rank);
}

/// The squares of a rank that matter, added up file by file.
proof fn lemma_row_sum(rook: bool, t: int, rank: int)
    requires
        0 <= t < 64,
        0 <= rank < 8,
    ensures
        one_for(relevant_at(rook, t, 8 * rank)) + one_for(relevant_at(rook, t, 8 * rank + 1))
            + one_for(relevant_at(rook, t, 8 * rank + 2)) + one_for(
            relevant_at(rook, t, 8 * rank + 3),
        ) + one_for(relevant_at(rook, t, 8 * rank + 4)) + one_for(
            relevant_at(rook, t, 8 * rank + 5),
        ) + one_for(relevant_at(rook, t, 8 * rank + 6)) + one_for(
            relevant_at(rook, t, 8 * rank + 7),
        ) == relevant_row(rook, t, rank),
{
    let b = 8 * rank;
    assert(b / 8 == rank && (b + 1) / 8 == rank && (b + 2) / 8 == rank && (b + 3) / 8 == rank && (b
        + 4) / 8 == rank && (b + 5) / 8 == rank && (b + 6) / 8 == rank && (b + 7) / 8 == rank);
    assert(b % 8 == 0 && (b + 1) % 8 == 1 && (b + 2) % 8 == 2 && (b + 3) % 8 == 3 && (b + 4) % 8
        == 4 && (b + 5) % 8 == 5 && (b + 6) % 8 == 6 && (b + 7) % 8 == 7);
}

/// The number of squares that matter for a rook or bishop on `t`: for a
/// rook five on its rank and five on its file, and six where it stands on
/// the edge; for a bishop the more the nearer it stands to the center.
pub open spec fn relevant_count(rook: bool, t: int) -> int {
    let r = t / 8;
    let f = t % 8;
    if rook {
        (if 1 <= r <= 6 {
            5int
        } else {
            6
        }) + (if 1 <= f <= 6 {
            5int
        } else {
            6
        })
    } else {
        let corner = (r == 0 || r == 7) && (f == 0 || f == 7);
        if corner {
            6
        } else if r <= 1 || r >= 6 || f <= 1 || f >= 6 {
            5
        } else if r == 2 || r == 5 || f == 2 || f == 5 {
            7
        } else {
            9
        }
    }
}

/// The squares that matter for a rook or bishop, counted.
pub proof fn lemma_relevant_count(rook: bool, t: int)
    requires
        0 <= t < 64,
    ensures
        count_spec(relevant_mask(t, line_deltas(rook))) == relevant_count(rook, t),
        5 <= relevant_count(rook, t) <= 12,
{
    let x = relevant_mask(t, line_deltas(rook));
    lemma_count_ones(x);
    assert(ones(x, 0) == 0);
    lemma_relevant_row(rook, t, 0);
    lemma_relevant_row(rook, t, 1);
    lemma_relevant_row(rook, t, 2);
    lemma_relevant_row(rook, t, 3);
    lemma_relevant_row(rook, t, 4);
    lemma_relevant_row(rook, t, 5);
    lemma_relevant_row(rook, t, 6);
    lemma_relevant_row(rook, t, 7);
    lemma_rows_sum(rook, t);
}

/// The squares that matter, added up rank by rank.
proof fn lemma_rows_sum(rook: bool, t: int)
    requires
        0 <= t < 64,
    ensures
        relevant_row(rook, t, 0) + relevant_row(rook, t, 1) + relevant_row(rook, t, 2)
            + relevant_row(rook, t, 3) + relevant_row(rook, t, 4) + relevant_row(rook, t, 5)
            + relevant_row(rook, t, 6) + relevant_row(rook, t, 7) == relevant_count(rook, t),
{
    let r = t / 8;
    let f = t % 8;
    if r == 0 {
    } else if r == 1 {
    } else if r == 2 {
    } else if r == 3 {
    } else if r == 4 {
    } else if r == 5 {
    } else if r == 6 {
    } else {
    }
}

/// A rook reaches seven squares of its rank and one of every other rank,
/// and a bishop none of its rank and two of another rank at most.
pub proof fn lemma_reached_row(rook: bool, t: int, rank: int)
    requires
        0 <= t < 64,
        0 <= rank < 8,
    ensures
        ones(line_attacks(rook, t, 0), 8 * rank + 8) <= ones(line_attacks(rook, t, 0), 8 * rank)
            + (if rook {
            if rank == t / 8 {
                7int
            } else {
                1
            }
        } else {
            if rank == t / 8 {
                0int
            } else {
                2
            }
        }),
{
    let x = line_attacks(rook, t, 0);
    let b = 8 * rank;
    lemma_ones_row(x, rank);
    lemma_reached(rook, t, b);
    lemma_reached(rook, t, b + 1);
    lemma_reached(rook, t, b + 2);
    lemma_reached(rook, t, b + 3);
    lemma_reached(rook, t, b + 4);
    lemma_reached(rook, t, b + 5);
    lemma_reached(rook, t, b + 6);
    lemma_reached(rook, t, b + 7);
    assert(b / 8 == rank && (b + 1) / 8 == rank && (b + 2) / 8 == rank && (b + 3) / 8 == rank && (b
        + 4) / 8 == rank && (b + 5) / 8 == rank && (b + 6) / 8 == rank && (b + 7) / 8 == rank);
    assert(b % 8 == 0 && (b + 1) % 8 == 1 && (b + 2) % 8 == 2 && (b + 3) % 8 == 3 && (b + 4) % 8
        == 4 && (b + 5) % 8 == 5 && (b + 6) % 8 == 6 && (b + 7) % 8 == 7);
}

/// A rook or bishop reaches fourteen squares at most on the empty board.
pub proof fn lemma_reached_count(rook: bool, t: int)
    requires
        0 <= t < 64,
    ensures
        count_spec(line_attacks(rook, t, 0)) <= 14,
{
    let x = line_attacks(rook, t, 0);
    lemma_count_ones(x);
    assert(ones(x, 0) == 0);
    lemma_reached_row(rook, t, 0);
    lemma_reached_row(rook, t, 1);
    lemma_reached_row(rook, t, 2);
    lemma_reached_row(rook, t, 3);
    lemma_reached_row(rook, t, 4);
    lemma_reached_row(rook, t, 5);
    lemma_reached_row(rook, t, 6);
    lemma_reached_row(rook, t, 7);
}

/// The bits that a mask selects make a number below two to the power of
/// the number of squares of the mask.
pub proof fn lemma_extract_below(x: u64, mask: u64)
    ensures
        extract_spec(x, mask) < pow2(count_spec(mask)),
    decreases mask,
{
    lemma2_to64();
    if mask != 0 {
        lemma_lsb(mask);
        lemma_count_bound(mask);
        let rest = drop_lsb(mask);
        let e = extract_spec(x, rest);
        let c = count_spec(rest);
        lemma_extract_below(x, rest);
        lemma2_to64_rest();
        if c < 63 {
            lemma_pow2_strictly_increases(c, 63);
        }
        let low: u64 = if has_bit(x, lsb(mask)) { 1 } else { 0 };
        assert(e < 0x8000_0000_0000_0000u64 && low <= 1 ==> ((e << 1) | low) == 2 * e + low)
            by (bit_vector);
        lemma_pow2_unfold((c + 1) as nat);
    }
}

/// The number of entries of the tables for the first `n` squares: for each
/// square one entry for each subset of the squares that matter.
pub open spec fn table_total(deltas: Seq<i8>, n: int) -> nat
    decreases n,
{
    if n <= 0 {
        0
    } else {
        table_total(deltas, n - 1) + pow2(count_spec(relevant_mask(n - 1, deltas)))
    }
}

/// The number of entries for the squares of a rank.
pub open spec fn rank_total(rook: bool, rank: int) -> nat {
    if rook {
        if rank == 0 || rank == 7 {
            20480
        } else {
            10240
        }
    } else {
        if rank == 0 || rank == 7 {
            320
        } else if rank == 1 || rank == 6 {
            256
        } else if rank == 2 || rank == 5 {
            640
        } else {
            1408
        }
    }
}

/// The entries for the squares of a rank, added up.
pub proof fn lemma_rank_total(rook: bool, rank: int)
    requires
        0 <= rank < 8,
    ensures
        table_total(line_deltas(rook), 8 * rank + 8) == table_total(line_deltas(rook), 8 * rank)
            + rank_total(rook, rank),
{
    let d = line_deltas(rook);
    let b = 8 * rank;
    lemma2_to64();
    lemma_relevant_count(rook, b);
    lemma_relevant_count(rook, b + 1);
    lemma_relevant_count(rook, b + 2);
    lemma_relevant_count(rook, b + 3);
    lemma_relevant_count(rook, b + 4);
    lemma_relevant_count(rook, b + 5);
    lemma_relevant_count(rook, b + 6);
    lemma_relevant_count(rook, b + 7);
    assert(b / 8 == rank && (b + 1) / 8 == rank && (b + 2) / 8 == rank && (b + 3) / 8 == rank && (b
        + 4) / 8 == rank && (b + 5) / 8 == rank && (b + 6) / 8 == rank && (b + 7) / 8 == rank);
    assert(b % 8 == 0 && (b + 1) % 8 == 1 && (b + 2) % 8 == 2 && (b + 3) % 8 == 3 && (b + 4) % 8
        == 4 && (b + 5) % 8 == 5 && (b + 6) % 8 == 6 && (b + 7) % 8 == 7);
    assert(table_total(d, b + 1) == table_total(d, b) + pow2(count_spec(relevant_mask(b, d))));
    assert(table_total(d, b + 2) == table_total(d, b + 1) + pow2(
        count_spec(relevant_mask(b + 1, d)),
    ));
    assert(table_total(d, b + 3) == table_total(d, b + 2) + pow2(
        count_spec(relevant_mask(b + 2, d)),
    ));
    assert(table_total(d, b + 4) == table_total(d, b + 3) + pow2(
        count_spec(relevant_mask(b + 3, d)),
    ));
    assert(table_total(d, b + 5) == table_total(d, b + 4) + pow2(
        count_spec(relevant_mask(b + 4, d)),
    ));
    assert(table_total(d, b + 6) == table_total(d, b + 5) + pow2(
        count_spec(relevant_mask(b + 5, d)),
    ));
    assert(table_total(d, b + 7) == table_total(d, b + 6) + pow2(
        count_spec(relevant_mask(b + 6, d)),
    ));
    assert(table_total(d, b + 8) == table_total(d, b + 7) + pow2(
        count_spec(relevant_mask(b + 7, d)),
    ));
}

/// The table of the rook has 0x19000 entries and that of the bishop
/// 0x1480.
pub proof fn lemma_table_total(rook: bool)
    ensures
        table_total(line_deltas(rook), 64) == (if rook {
            0x19000nat
        } else {
            0x1480
        }),
{
    let d = line_deltas(rook);
    assert(table_total(d, 0) == 0);
    lemma_rank_total(rook, 0);
    lemma_rank_total(rook, 1);
    lemma_rank_total(rook, 2);
    lemma_rank_total(rook, 3);
    lemma_rank_total(rook, 4);
    lemma_rank_total(rook, 5);
    lemma_rank_total(rook, 6);
    lemma_rank_total(rook, 7);
}

/// The tables for the first squares have fewer entries than those for
/// all squares, and never more than 4096 for a square.
pub proof fn lemma_table_bound(rook: bool, n: int)
    requires
        0 <= n <= 64,
    ensures
        table_total(line_deltas(rook), n) <= 4096 * n,
    decreases n,
{
    if n > 0 {
        lemma_table_bound(rook, n - 1);
        lemma_relevant_count(rook, n - 1);
        lemma2_to64();
        if relevant_count(rook, n - 1) < 12 {
            lemma_pow2_strictly_increases(relevant_count(rook, n - 1) as nat, 12);
        }
    }
}

} // verus!
