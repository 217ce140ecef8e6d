//! Tables of the attacks of rooks and bishops, looked up by the occupied
//! squares that matter.

use vstd::prelude::*;
use vstd::arithmetic::power2::{lemma2_to64, lemma_pow2_strictly_increases, pow2};
use crate::bitboard::count_spec;
use crate::count_laws::{
    lemma_extract_below, lemma_reached_count, lemma_relevant_count, lemma_table_bound,
    table_total,
};
use crate::line_laws::line_deltas;
use crate::attacks::{sliding_attacks, sliding_attacks_spec, slide};
use crate::bitboard::{
    bit, deposit_bits, deposit_spec, drop_lsb, extract_bits, extract_spec, file_bits, has_bit,
    lemma_lsb, lsb, rank_bits, Bitboard,
};
use crate::square::{distance_spec, Square};

verus! {

/// The squares of the first and last rank and file but for those of the
/// rank and of the file of the square with index `s`.
pub open spec fn edges(s: int) -> u64 {
    ((rank_bits(0) | rank_bits(7)) & !rank_bits(s / 8)) | ((file_bits(0) | file_bits(7))
        & !file_bits(s % 8))
}

/// The squares whose occupation decides how far a piece on `s` reaches
/// along `deltas`: all that it reaches on the empty board, but for the
/// edges.
pub open spec fn relevant_mask(s: int, deltas: Seq<i8>) -> u64 {
    sliding_attacks_spec(s, 0, deltas) & !edges(s)
}

/// True if `delta` is the step of a rook or a bishop that changes the rank
/// by `dr` and the file by `df`.
pub open spec fn is_direction(delta: int, dr: int, df: int) -> bool {
    &&& delta == 8 * dr + df
    &&& -1 <= dr <= 1
    &&& -1 <= df <= 1
    &&& delta != 0
}

/// True if there is a step of `delta` from `s` on the board.
pub open spec fn can_step(s: int, delta: int) -> bool {
    delta != 0 && 0 <= s < 64 && 0 <= s + delta < 64 && distance_spec(s + delta, s) <= 2
}

/// True if all squares that a piece reaches from `s` in steps of `delta`
/// on the empty board are in the mask, but for the last of them.
pub open spec fn covered(mask: u64, s: int, delta: int) -> bool
    decreases
        (if delta > 0 {
            64 - s
        } else {
            s + 1
        }),
{
    if can_step(s, delta) {
        (!can_step(s + delta, delta) || has_bit(mask, s + delta)) && covered(mask, s + delta, delta)
    } else {
        true
    }
}

/// A step in a direction changes rank and file as the direction says.
pub proof fn lemma_step(s: int, delta: int, dr: int, df: int)
    requires
        is_direction(delta, dr, df),
        can_step(s, delta),
    ensures
        (s + delta) / 8 == s / 8 + dr,
        (s + delta) % 8 == s % 8 + df,
{
}

/// Which squares the sets of a rank, of a file and of a single square
/// hold.
pub proof fn lemma_lines(i: int, k: int)
    requires
        0 <= i < 64,
        0 <= k < 8,
    ensures
        has_bit(rank_bits(k), i) <==> i / 8 == k,
        has_bit(file_bits(k), i) <==> i % 8 == k,
{
    let a = i as u64;
    let b = k as u64;
    assert(a < 64 && b < 8 ==> ((((0xffu64 << ((8 * b) as u64)) >> a) & 1 == 1) <==> a / 8 == b)
        && ((((0x0101_0101_0101_0101u64 << b) >> a) & 1 == 1) <==> a % 8 == b)) by (bit_vector);
}

/// Which squares an intersection, a union and a complement hold.
pub proof fn lemma_set_bits(a: u64, b: u64, i: int)
    requires
        0 <= i < 64,
    ensures
        has_bit(a & b, i) <==> has_bit(a, i) && has_bit(b, i),
        has_bit(a | b, i) <==> has_bit(a, i) || has_bit(b, i),
        has_bit(!a, i) <==> !has_bit(a, i),
        has_bit(bit(i), i),
{
    let j = i as u64;
    assert(j < 64 ==> ((((a & b) >> j) & 1 == 1) <==> ((a >> j) & 1 == 1) && ((b >> j) & 1 == 1))
        && ((((a | b) >> j) & 1 == 1) <==> ((a >> j) & 1 == 1) || ((b >> j) & 1 == 1)) && ((((!a)
        >> j) & 1 == 1) <==> !((a >> j) & 1 == 1)) && ((1u64 << j) >> j) & 1 == 1) by (bit_vector);
}

/// Whether a square is on the edges, as seen from `s`.
pub proof fn lemma_edges(s: int, i: int)
    requires
        0 <= s < 64,
        0 <= i < 64,
    ensures
        has_bit(edges(s), i) <==> ((i / 8 == 0 || i / 8 == 7) && i / 8 != s / 8) || ((i % 8 == 0
            || i % 8 == 7) && i % 8 != s % 8),
{
    lemma_lines(i, 0);
    lemma_lines(i, 7);
    lemma_lines(i, s / 8);
    lemma_lines(i, s % 8);
    let ranks = rank_bits(0) | rank_bits(7);
    let files = file_bits(0) | file_bits(7);
    lemma_set_bits(rank_bits(0), rank_bits(7), i);
    lemma_set_bits(file_bits(0), file_bits(7), i);
    lemma_set_bits(rank_bits(s / 8), 0, i);
    lemma_set_bits(file_bits(s % 8), 0, i);
    lemma_set_bits(ranks, !rank_bits(s / 8), i);
    lemma_set_bits(files, !file_bits(s % 8), i);
    lemma_set_bits(ranks & !rank_bits(s / 8), files & !file_bits(s % 8), i);
}

/// Whatever is occupied, a piece reaches no square that it does not reach
/// on the empty board.
pub proof fn lemma_slide_within(s: int, occupied: u64, delta: int)
    ensures
        slide(s, occupied, delta) & !slide(s, 0, delta) == 0,
    decreases
        (if delta > 0 {
            64 - s
        } else {
            s + 1
        }),
{
    let a = slide(s, occupied, delta);
    let b = slide(s, 0, delta);
    if can_step(s, delta) {
        let n = s + delta;
        crate::bitboard::lemma_no_bits(n);
        lemma_slide_within(n, occupied, delta);
        let x = bit(n);
        let a1 = slide(n, occupied, delta);
        let b1 = slide(n, 0, delta);
        assert(a1 & !b1 == 0 ==> (x | a1) & !(x | b1) == 0 && x & !(x | b1) == 0) by (bit_vector);
    } else {
        assert(0u64 & !0u64 == 0) by (bit_vector);
    }
}

/// The squares reached along four steps, written out.
pub proof fn lemma_four_steps(s: int, occupied: u64, deltas: Seq<i8>)
    requires
        deltas.len() == 4,
    ensures
        sliding_attacks_spec(s, occupied, deltas) == (((0 | slide(s, occupied, deltas[0] as int))
            | slide(s, occupied, deltas[1] as int)) | slide(s, occupied, deltas[2] as int)) | slide(
            s,
            occupied,
            deltas[3] as int,
        ),
{
    let d3 = deltas.drop_last();
    let d2 = d3.drop_last();
    let d1 = d2.drop_last();
    let d0 = d1.drop_last();
    assert(d0.len() == 0);
    assert(sliding_attacks_spec(s, occupied, d0) == 0);
    assert(sliding_attacks_spec(s, occupied, d1) == sliding_attacks_spec(s, occupied, d0) | slide(
        s,
        occupied,
        d1.last() as int,
    ));
    assert(sliding_attacks_spec(s, occupied, d2) == sliding_attacks_spec(s, occupied, d1) | slide(
        s,
        occupied,
        d2.last() as int,
    ));
    assert(sliding_attacks_spec(s, occupied, d3) == sliding_attacks_spec(s, occupied, d2) | slide(
        s,
        occupied,
        d3.last() as int,
    ));
}

/// A piece that goes by a mask that covers its ways reaches the same
/// squares as one that sees all occupied squares.
pub proof fn lemma_slide_masked(s: int, occupied: u64, mask: u64, delta: int)
    requires
        covered(mask, s, delta),
    ensures
        slide(s, occupied & mask, delta) == slide(s, occupied, delta),
    decreases
        (if delta > 0 {
            64 - s
        } else {
            s + 1
        }),
{
    if can_step(s, delta) {
        let n = s + delta;
        lemma_set_bits(occupied, mask, n);
        if can_step(n, delta) {
            lemma_slide_masked(n, occupied, mask, delta);
            assert(has_bit(mask, n));
        } else {
            let x = bit(n);
            assert(x | 0 == x) by (bit_vector);
            assert(slide(n, occupied, delta) == 0);
            assert(slide(n, occupied & mask, delta) == 0);
        }
    }
}

/// The mask of a rook or a bishop covers each of its ways.
pub proof fn lemma_covered(sq: int, s: int, deltas: Seq<i8>, delta: int, dr: int, df: int)
    requires
        0 <= sq < 64,
        0 <= s < 64,
        is_direction(delta, dr, df),
        dr == 1 ==> s / 8 >= sq / 8,
        dr == -1 ==> s / 8 <= sq / 8,
        dr == 0 ==> s / 8 == sq / 8,
        df == 1 ==> s % 8 >= sq % 8,
        df == -1 ==> s % 8 <= sq % 8,
        df == 0 ==> s % 8 == sq % 8,
        slide(s, 0, delta) & !sliding_attacks_spec(sq, 0, deltas) == 0,
    ensures
        covered(relevant_mask(sq, deltas), s, delta),
    decreases
        (if delta > 0 {
            64 - s
        } else {
            s + 1
        }),
{
    let range = sliding_attacks_spec(sq, 0, deltas);
    let mask = relevant_mask(sq, deltas);
    if can_step(s, delta) {
        let n = s + delta;
        lemma_step(s, delta, dr, df);
        crate::bitboard::lemma_no_bits(n);
        let x = bit(n);
        let rest = slide(n, 0, delta);
        assert((x | rest) & !range == 0 ==> rest & !range == 0 && x & !range == 0) by (bit_vector);
        lemma_covered(sq, n, deltas, delta, dr, df);
        if can_step(n, delta) {
            lemma_step(n, delta, dr, df);
            lemma_edges(sq, n);
            lemma_set_bits(range, !edges(sq), n);
            lemma_set_bits(edges(sq), 0, n);
            lemma_set_bits(x, !range, n);
            crate::bitboard::lemma_no_bits(n);
            assert(has_bit(range, n));
            assert(!has_bit(edges(sq), n));
        }
    }
}

/// True for the steps of a rook and for those of a bishop.
pub open spec fn is_slider(deltas: Seq<i8>) -> bool {
    deltas == crate::attacks::rook_deltas() || deltas == crate::attacks::bishop_deltas()
}

/// The rank and file changes of the steps of a rook or a bishop.
pub proof fn lemma_directions(deltas: Seq<i8>, i: int) -> (d: (int, int))
    requires
        is_slider(deltas),
        0 <= i < 4,
    ensures
        is_direction(deltas[i] as int, d.0, d.1),
{
    let delta = deltas[i] as int;
    if delta == 8 {
        (1, 0)
    } else if delta == 1 {
        (0, 1)
    } else if delta == -8 {
        (-1, 0)
    } else if delta == -1 {
        (0, -1)
    } else if delta == 9 {
        (1, 1)
    } else if delta == 7 {
        (1, -1)
    } else if delta == -9 {
        (-1, -1)
    } else {
        (-1, 1)
    }
}

/// The attacks of a rook or a bishop depend only on the occupied squares
/// of its mask, and lie within what it reaches on the empty board.
pub proof fn lemma_sliding_masked(sq: int, occupied: u64, deltas: Seq<i8>)
    requires
        0 <= sq < 64,
        is_slider(deltas),
    ensures
        sliding_attacks_spec(sq, occupied & relevant_mask(sq, deltas), deltas)
            == sliding_attacks_spec(sq, occupied, deltas),
        sliding_attacks_spec(sq, occupied, deltas) & !sliding_attacks_spec(sq, 0, deltas) == 0,
        sliding_attacks_spec(sq, occupied, deltas) & sliding_attacks_spec(sq, 0, deltas)
            == sliding_attacks_spec(sq, occupied, deltas),
{
    let mask = relevant_mask(sq, deltas);
    let range = sliding_attacks_spec(sq, 0, deltas);
    lemma_four_steps(sq, 0, deltas);
    lemma_four_steps(sq, occupied, deltas);
    lemma_four_steps(sq, occupied & mask, deltas);
    let r0 = slide(sq, 0, deltas[0] as int);
    let r1 = slide(sq, 0, deltas[1] as int);
    let r2 = slide(sq, 0, deltas[2] as int);
    let r3 = slide(sq, 0, deltas[3] as int);
    assert({
        let all = (((0 | r0) | r1) | r2) | r3;
        r0 & !all == 0 && r1 & !all == 0 && r2 & !all == 0 && r3 & !all == 0
    }) by (bit_vector);
    let d0 = lemma_directions(deltas, 0);
    let d1 = lemma_directions(deltas, 1);
    let d2 = lemma_directions(deltas, 2);
    let d3 = lemma_directions(deltas, 3);
    lemma_covered(sq, sq, deltas, deltas[0] as int, d0.0, d0.1);
    lemma_covered(sq, sq, deltas, deltas[1] as int, d1.0, d1.1);
    lemma_covered(sq, sq, deltas, deltas[2] as int, d2.0, d2.1);
    lemma_covered(sq, sq, deltas, deltas[3] as int, d3.0, d3.1);
    lemma_slide_masked(sq, occupied, mask, deltas[0] as int);
    lemma_slide_masked(sq, occupied, mask, deltas[1] as int);
    lemma_slide_masked(sq, occupied, mask, deltas[2] as int);
    lemma_slide_masked(sq, occupied, mask, deltas[3] as int);
    lemma_slide_within(sq, occupied, deltas[0] as int);
    lemma_slide_within(sq, occupied, deltas[1] as int);
    lemma_slide_within(sq, occupied, deltas[2] as int);
    lemma_slide_within(sq, occupied, deltas[3] as int);
    let a0 = slide(sq, occupied, deltas[0] as int);
    let a1 = slide(sq, occupied, deltas[1] as int);
    let a2 = slide(sq, occupied, deltas[2] as int);
    let a3 = slide(sq, occupied, deltas[3] as int);
    assert(a0 & !r0 == 0 && a1 & !r1 == 0 && a2 & !r2 == 0 && a3 & !r3 == 0 ==> {
        let a = (((0 | a0) | a1) | a2) | a3;
        let r = (((0 | r0) | r1) | r2) | r3;
        a & !r == 0 && a & r == a
    }) by (bit_vector);
}

/// The bits that a mask selects fit into as many low bits as the mask has
/// squares above its lowest one, and one more.
pub proof fn lemma_extract_bound(x: u64, mask: u64)
    requires
        mask != 0,
    ensures
        extract_spec(x, mask) >> ((64 - lsb(mask)) as u64) == 0,
    decreases mask,
{
    lemma_lsb(mask);
    let rest = drop_lsb(mask);
    let e = extract_spec(x, rest);
    let low: u64 = if has_bit(x, lsb(mask)) { 1 } else { 0 };
    let s: u64 = (64 - lsb(mask)) as u64;
    if rest == 0 {
        assert(1 <= s <= 64 && low <= 1 ==> ((0u64 << 1) | low) >> s == 0) by (bit_vector);
    } else {
        lemma_lsb(rest);
        crate::bitboard::lemma_drop_lsb_bits(mask, lsb(rest));
        lemma_extract_bound(x, rest);
        let s1: u64 = (64 - lsb(rest)) as u64;
        assert(1 <= s1 < s <= 64 && low <= 1 && e >> s1 == 0 ==> ((e << 1) | low) >> s == 0)
            by (bit_vector);
    }
}

/// Spreading the bits that a mask selects over the mask again gives these
/// bits back.
pub proof fn lemma_deposit_extract(x: u64, mask: u64)
    ensures
        deposit_spec(extract_spec(x, mask), mask) == x & mask,
    decreases mask,
{
    if mask == 0 {
        assert(x & 0 == 0) by (bit_vector);
    } else {
        lemma_lsb(mask);
        let t = lsb(mask) as u64;
        let rest = drop_lsb(mask);
        let e = extract_spec(x, rest);
        let low: u64 = if has_bit(x, lsb(mask)) { 1 } else { 0 };
        let y = (e << 1) | low;
        lemma_deposit_extract(x, rest);
        if rest != 0 {
            lemma_extract_bound(x, rest);
            lemma_lsb(rest);
            crate::bitboard::lemma_drop_lsb_bits(mask, lsb(rest));
            let s1: u64 = (64 - lsb(rest)) as u64;
            assert(low <= 1 && 1 <= s1 <= 63 && e >> s1 == 0 ==> ((e << 1) | low) >> 1 == e && (((e
                << 1) | low) & 1 == 1 <==> low == 1)) by (bit_vector);
        } else {
            assert(e == 0);
            assert(low <= 1 ==> ((0u64 << 1) | low) >> 1 == 0 && ((((0u64 << 1) | low) & 1 == 1)
                <==> low == 1)) by (bit_vector);
        }
        assert(y >> 1 == e);
        assert(y & 1 == 1 <==> low == 1);
        assert(extract_spec(x, mask) == y);
        let b = bit(lsb(mask));
        let placed: u64 = if y & 1 == 1 { b } else { 0 };
        assert(deposit_spec(y, mask) == deposit_spec(y >> 1, rest) | placed);
        assert(deposit_spec(y, mask) == (x & rest) | placed);
        assert(t < 64 && rest == mask & !b && (mask >> t) & 1 == 1 ==> ((x >> t) & 1 == 1 ==> (x
            & rest) | b == x & mask) && (!((x >> t) & 1 == 1) ==> (x & rest) | 0 == x & mask))
            by (bit_vector)
            requires
                b == 1u64 << t,
        ;
    }
}

/// What the table holds for a piece on `s` when `k` stands for the
/// occupied squares of its mask: the squares that it attacks, picked from
/// those that it reaches on the empty board and packed.
pub open spec fn table_entry(s: int, k: u64, deltas: Seq<i8>) -> u64 {
    extract_spec(
        sliding_attacks_spec(s, deposit_spec(k, relevant_mask(s, deltas)), deltas),
        sliding_attacks_spec(s, 0, deltas),
    )
}

/// The table finds the attacks of a rook or bishop: the entry for the
/// occupied squares of the mask, spread over the squares that the piece
/// reaches on the empty board.
pub proof fn lemma_lookup(s: int, occupied: u64, deltas: Seq<i8>)
    requires
        0 <= s < 64,
        is_slider(deltas),
    ensures
        deposit_spec(
            table_entry(s, extract_spec(occupied, relevant_mask(s, deltas)), deltas),
            sliding_attacks_spec(s, 0, deltas),
        ) == sliding_attacks_spec(s, occupied, deltas),
{
    let mask = relevant_mask(s, deltas);
    let range = sliding_attacks_spec(s, 0, deltas);
    lemma_deposit_extract(occupied, mask);
    lemma_sliding_masked(s, occupied, deltas);
    lemma_deposit_extract(sliding_attacks_spec(s, occupied, deltas), range);
}

/// The tables of the square with index `t` are filled as they should be:
/// the mask, the squares reached on the empty board, and an entry for each
/// subset of the mask.
pub open spec fn row_filled(
    deltas: Seq<i8>,
    indexes: Seq<usize>,
    sizes: Seq<usize>,
    masks: Seq<Bitboard>,
    ranges: Seq<Bitboard>,
    attacks: Seq<u16>,
    t: int,
) -> bool {
    &&& masks[t].0 == relevant_mask(t, deltas)
    &&& ranges[t].0 == sliding_attacks_spec(t, 0, deltas)
    &&& indexes[t] + sizes[t] <= attacks.len()
    &&& sizes[t] == pow2(count_spec(masks[t].0))
    &&& forall|k: int|
        0 <= k < sizes[t] ==> #[trigger] attacks[indexes[t] + k] == table_entry(
            t,
            k as u64,
            deltas,
        )
}

/// The attacks of a rook or of a bishop from every square, for every set
/// of occupied squares that matters.
pub struct Magics {
    deltas: Vec<i8>,
    indexes: Vec<usize>,
    sizes: Vec<usize>,
    masks: Vec<Bitboard>,
    ranges: Vec<Bitboard>,
    attacks: Vec<u16>,
}

impl Magics {
    #[verifier::type_invariant]
    spec fn inv(&self) -> bool {
        &&& is_slider(self.deltas@)
        &&& self.indexes@.len() == 64
        &&& self.sizes@.len() == 64
        &&& self.masks@.len() == 64
        &&& self.ranges@.len() == 64
        &&& forall|t: int|
            0 <= t < 64 ==> #[trigger] row_filled(
                self.deltas@,
                self.indexes@,
                self.sizes@,
                self.masks@,
                self.ranges@,
                self.attacks@,
                t,
            )
    }

    /// The steps of the piece.
    pub closed spec fn deltas_spec(&self) -> Seq<i8> {
        self.deltas@
    }

    /// The number of entries of the table.
    pub closed spec fn entries(&self) -> nat {
        self.attacks@.len()
    }

    /// The number of entries of the table.
    pub fn len(&self) -> (r: usize)
        ensures
            r == self.entries(),
    {
        self.attacks.len()
    }

    /// The square with index `s`.
    fn square(s: u8) -> (r: Square)
        requires
            s < 64,
        ensures
            r.idx() == s,
    {
        broadcast use Square::lemma_idx_at;

        match Square::new(s) {
            Some(sq) => sq,
            None => Square::from_coords(crate::square::File::A, crate::square::Rank::First),
        }
    }

    /// Fills the tables for the piece that moves by `deltas`: for each
    /// square the squares that it reaches on the empty board, the mask of
    /// those that matter, and the attacks for each subset of the mask, in
    /// the order of the numbers that stand for the subsets, which is the
    /// Carry-Rippler order.
    pub fn init_magics(deltas: Vec<i8>) -> (r: Magics)
        requires
            is_slider(deltas@),
        ensures
            r.deltas_spec() == deltas@,
            r.entries() == table_total(deltas@, 64),
    {
        let ghost rook = deltas@ == crate::attacks::rook_deltas();
        assert(line_deltas(rook) == deltas@);
        let mut indexes: Vec<usize> = Vec::new();
        let mut sizes: Vec<usize> = Vec::new();
        let mut masks: Vec<Bitboard> = Vec::new();
        let mut ranges: Vec<Bitboard> = Vec::new();
        let mut attacks: Vec<u16> = Vec::new();
        let mut s: u8 = 0;
        while s < 64
            invariant
                s <= 64,
                is_slider(deltas@),
                line_deltas(rook) == deltas@,
                indexes@.len() == s,
                sizes@.len() == s,
                masks@.len() == s,
                ranges@.len() == s,
                attacks@.len() == table_total(deltas@, s as int),
                forall|t: int|
                    0 <= t < s ==> #[trigger] row_filled(
                        deltas@,
                        indexes@,
                        sizes@,
                        masks@,
                        ranges@,
                        attacks@,
                        t,
                    ),
            decreases 64 - s,
        {
            let sq = Magics::square(s);
            let range = sliding_attacks(sq, Bitboard(0), deltas.as_slice());
            let edges = ((Bitboard::rank(crate::square::Rank::First).0 | Bitboard::rank(
                crate::square::Rank::Eighth,
            ).0) & !Bitboard::rank(sq.rank()).0) | ((Bitboard::file(crate::square::File::A).0
                | Bitboard::file(crate::square::File::H).0) & !Bitboard::file(sq.file()).0);
            let mask = Bitboard(range.0 & !edges);
            assert(mask.0 == relevant_mask(s as int, deltas@));
            let n = mask.count();
            let start = attacks.len();
            proof {
                lemma_relevant_count(rook, s as int);
                lemma_reached_count(rook, s as int);
                lemma_table_bound(rook, s as int);
                lemma2_to64();
                if n < 12 {
                    lemma_pow2_strictly_increases(n as nat, 12);
                }
                if count_spec(range.0) < 14 {
                    lemma_pow2_strictly_increases(count_spec(range.0), 14);
                }
                vstd::bits::lemma_u64_shl_is_mul(1, n as u64);
            }
            let size: u64 = 1u64 << (n as u64);
            assert(size == pow2(n as nat));
            let mut k: u64 = 0;
            while k < size
                invariant
                    k <= size <= 4096,
                    start <= 4096 * 64,
                    attacks@.len() == start + k,
                    mask.0 == relevant_mask(s as int, deltas@),
                    range.0 == sliding_attacks_spec(s as int, 0, deltas@),
                    pow2(count_spec(range.0)) <= 0x4000,
                    sq.idx() == s,
                    indexes@.len() == s,
                    sizes@.len() == s,
                    masks@.len() == s,
                    ranges@.len() == s,
                    forall|t: int|
                        0 <= t < s ==> #[trigger] row_filled(
                            deltas@,
                            indexes@,
                            sizes@,
                            masks@,
                            ranges@,
                            attacks@,
                            t,
                        ),
                    forall|j: int|
                        0 <= j < k ==> #[trigger] attacks@[start + j] == table_entry(
                            s as int,
                            j as u64,
                            deltas@,
                        ),
                decreases size - k,
            {
                let subset = Bitboard(deposit_bits(k, mask.0));
                let entry = extract_bits(sliding_attacks(sq, subset, deltas.as_slice()).0, range.0);
                proof {
                    lemma_extract_below(
                        sliding_attacks_spec(s as int, subset.0, deltas@),
                        range.0,
                    );
                }
                let ghost before = attacks@;
                attacks.push(entry as u16);
                proof {
                    assert forall|t: int| 0 <= t < s implies #[trigger] row_filled(
                        deltas@,
                        indexes@,
                        sizes@,
                        masks@,
                        ranges@,
                        attacks@,
                        t,
                    ) by {
                        assert(row_filled(deltas@, indexes@, sizes@, masks@, ranges@, before, t));
                        assert forall|j: int| 0 <= j < sizes@[t] implies #[trigger] attacks@[
                            indexes@[t] + j] == table_entry(t, j as u64, deltas@) by {
                            assert(before[indexes@[t] + j] == table_entry(t, j as u64, deltas@));
                        }
                    }
                    assert forall|j: int| 0 <= j < k + 1 implies #[trigger] attacks@[start + j]
                        == table_entry(s as int, j as u64, deltas@) by {
                        if j < k {
                            assert(before[start + j] == table_entry(s as int, j as u64, deltas@));
                        }
                    }
                }
                k = k + 1;
            }
            let ghost old_indexes = indexes@;
            let ghost old_sizes = sizes@;
            let ghost old_masks = masks@;
            let ghost old_ranges = ranges@;
            indexes.push(start);
            sizes.push(k as usize);
            masks.push(mask);
            ranges.push(range);
            proof {
                assert(table_total(deltas@, s + 1) == table_total(deltas@, s as int) + pow2(
                    count_spec(relevant_mask(s as int, deltas@)),
                ));
                assert forall|t: int| 0 <= t < s + 1 implies #[trigger] row_filled(
                    deltas@,
                    indexes@,
                    sizes@,
                    masks@,
                    ranges@,
                    attacks@,
                    t,
                ) by {
                    if t < s {
                        assert(row_filled(
                            deltas@,
                            old_indexes,
                            old_sizes,
                            old_masks,
                            old_ranges,
                            attacks@,
                            t,
                        ));
                        assert forall|j: int| 0 <= j < sizes@[t] implies #[trigger] attacks@[
                            indexes@[t] + j] == table_entry(t, j as u64, deltas@) by {
                            assert(attacks@[old_indexes[t] + j] == table_entry(
                                t,
                                j as u64,
                                deltas@,
                            ));
                        }
                    } else {
                        assert forall|j: int| 0 <= j < sizes@[t] implies #[trigger] attacks@[
                            indexes@[t] + j] == table_entry(t, j as u64, deltas@) by {
                            assert(attacks@[start + j] == table_entry(s as int, j as u64, deltas@));
                        }
                    }
                }
            }
            s = s + 1;
        }
        Magics { deltas, indexes, sizes, masks, ranges, attacks }
    }

    /// The squares that the piece attacks from `sq`, with the given
    /// squares occupied: the entry of the table for the occupied squares
    /// that matter, spread over the squares that the piece reaches on the
    /// empty board.
    pub fn lookup(&self, sq: Square, occupied: Bitboard) -> (r: Bitboard)
        ensures
            r.0 == sliding_attacks_spec(sq.idx(), occupied.0, self.deltas_spec()),
    {
        proof {
            use_type_invariant(self);
        }
        let s = sq.index() as usize;
        assert(row_filled(
            self.deltas@,
            self.indexes@,
            self.sizes@,
            self.masks@,
            self.ranges@,
            self.attacks@,
            s as int,
        ));
        let mask = self.masks[s];
        let range = self.ranges[s];
        let k = extract_bits(occupied.0, mask.0);
        proof {
            lemma_extract_below(occupied.0, mask.0);
            lemma_lookup(s as int, occupied.0, self.deltas@);
            assert(self.attacks@[self.indexes@[s as int] + k] == table_entry(
                s as int,
                k,
                self.deltas@,
            ));
        }
        let total = self.attacks.len();
        assert(k < self.sizes@[s as int]);
        assert(self.indexes@[s as int] + self.sizes@[s as int] <= total);
        let entry = self.attacks[self.indexes[s] + k as usize];
        Bitboard(deposit_bits(entry as u64, range.0))
    }
}

} // verus!
