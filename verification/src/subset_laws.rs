//! The Carry-Rippler order of the subsets of a set is the order of the
//! numbers whose bits, spread over the set, give the subsets.

use vstd::prelude::*;
use crate::bitboard::{deposit_spec, drop_lsb, extract_spec, lemma_lsb, lsb, next_subset_spec};
use crate::magic::lemma_deposit_extract;

verus! {

/// One step of the Carry-Rippler order, seen from the lowest square `t` of
/// the set `m`: a subset without that square is followed by the same
/// subset with it, and a subset with it by the square-less subset that
/// follows in the order of the set without `t`.
proof fn lemma_ripple(sp: u64, m: u64, t: u64, s: u64, n: u64)
    by (bit_vector)
    requires
        t < 64,
        s == 64 - t,
        (m >> t) & 1 == 1,
        m << s == 0,
        sp & !(m & !(1u64 << t)) == 0,
        n < 0xffff_ffff_ffff_ffffu64,
    ensures
        ((if sp >= m {
            (sp - m) as u64
        } else {
            (sp + 0x1_0000_0000_0000_0000 - m) as u64
        }) & m) == sp | (1u64 << t),
        ((if (sp | (1u64 << t)) >= m {
            ((sp | (1u64 << t)) - m) as u64
        } else {
            ((sp | (1u64 << t)) + 0x1_0000_0000_0000_0000 - m) as u64
        }) & m) == ((if sp >= (m & !(1u64 << t)) {
            (sp - (m & !(1u64 << t))) as u64
        } else {
            (sp + 0x1_0000_0000_0000_0000 - (m & !(1u64 << t))) as u64
        }) & (m & !(1u64 << t))),
        (sp | (1u64 << t)) & !m == 0,
        sp & !m == 0,
        sp | 0 == sp,
        n & 1 == 1 ==> ((n + 1) as u64) & 1 != 1 && ((n + 1) as u64) >> 1 == ((n >> 1) + 1) as u64
            && (n >> 1) < 0xffff_ffff_ffff_ffffu64,
        n & 1 != 1 ==> ((n + 1) as u64) & 1 == 1 && ((n + 1) as u64) >> 1 == n >> 1,
{
}

/// Facts about the empty set, and about a set within another set.
proof fn lemma_empty_sets(x: u64, m: u64)
    by (bit_vector)
    ensures
        0u64 & !0u64 == 0,
        0u64 & 0u64 == 0,
        0u64 & m == 0,
        (0u64 << 1) | 0u64 == 0,
        x & !m == 0 ==> x & m == x,
{
}

/// The bits of a number, spread over a set, give a subset of the set.
pub proof fn lemma_deposit_within(y: u64, mask: u64)
    ensures
        deposit_spec(y, mask) & !mask == 0,
    decreases mask,
{
    if mask == 0 {
        lemma_empty_sets(0, 0);
    } else {
        lemma_lsb(mask);
        vstd::std_specs::bits::axiom_u64_trailing_zeros(mask);
        lemma_deposit_within(y >> 1, drop_lsb(mask));
        let t = lsb(mask) as u64;
        lemma_ripple(deposit_spec(y >> 1, drop_lsb(mask)), mask, t, (64 - t) as u64, 0);
    }
}

/// After the subset that the bits of `n` give comes, in the Carry-Rippler
/// order, the subset that the bits of `n + 1` give.
pub proof fn lemma_next_subset(n: u64, mask: u64)
    requires
        n < u64::MAX,
    ensures
        next_subset_spec(deposit_spec(n, mask), mask) == deposit_spec((n + 1) as u64, mask),
    decreases mask,
{
    if mask != 0 {
        lemma_lsb(mask);
        vstd::std_specs::bits::axiom_u64_trailing_zeros(mask);
        let t = lsb(mask) as u64;
        let rest = drop_lsb(mask);
        let sp = deposit_spec(n >> 1, rest);
        let next = (n + 1) as u64;
        lemma_deposit_within(n >> 1, rest);
        lemma_ripple(sp, mask, t, (64 - t) as u64, n);
        assert(crate::bitboard::bit(lsb(mask)) == 1u64 << t);
        assert(rest == mask & !(1u64 << t));
        if n & 1 == 1 {
            lemma_next_subset(n >> 1, rest);
            assert(deposit_spec(n, mask) == sp | (1u64 << t));
            assert(deposit_spec(next, mask) == deposit_spec(next >> 1, rest) | 0);
            assert(next >> 1 == ((n >> 1) + 1) as u64);
            lemma_deposit_within(next >> 1, rest);
            lemma_ripple(deposit_spec(next >> 1, rest), mask, t, (64 - t) as u64, n);
        } else {
            assert(deposit_spec(n, mask) == sp | 0);
            assert(deposit_spec(next, mask) == deposit_spec(next >> 1, rest) | (1u64 << t));
        }
    } else {
        lemma_empty_sets(0, 0);
    }
}

/// The subset of `mask` that the Carry-Rippler order reaches in `n` steps
/// from the empty set.
pub open spec fn nth_subset(mask: u64, n: nat) -> u64
    decreases n,
{
    if n == 0 {
        0
    } else {
        next_subset_spec(nth_subset(mask, (n - 1) as nat), mask)
    }
}

/// In `n` steps from the empty set the Carry-Rippler order reaches the
/// subset that the bits of `n` give.
pub proof fn lemma_nth_subset(mask: u64, n: nat)
    requires
        n <= u64::MAX,
    ensures
        nth_subset(mask, n) == deposit_spec(n as u64, mask),
    decreases n,
{
    if n == 0 {
        lemma_deposit_extract(0, mask);
        lemma_extract_none(mask);
    } else {
        lemma_nth_subset(mask, (n - 1) as nat);
        lemma_next_subset((n - 1) as u64, mask);
    }
}

/// No bits are selected from the empty set.
proof fn lemma_extract_none(mask: u64)
    ensures
        extract_spec(0, mask) == 0,
        0u64 & mask == 0,
    decreases mask,
{
    lemma_empty_sets(0, mask);
    if mask != 0 {
        lemma_lsb(mask);
        crate::bitboard::lemma_no_bits(lsb(mask));
        lemma_extract_none(drop_lsb(mask));
    }
}

/// The Carry-Rippler order visits every subset of a set: from the empty
/// set it reaches a subset in as many steps as the number says that the
/// squares of the set select from the subset.
pub proof fn lemma_every_subset(subset: u64, mask: u64)
    requires
        subset & !mask == 0,
    ensures
        nth_subset(mask, extract_spec(subset, mask) as nat) == subset,
{
    lemma_nth_subset(mask, extract_spec(subset, mask) as nat);
    lemma_deposit_extract(subset, mask);
    lemma_empty_sets(subset, mask);
}

} // verus!
