//! Sets of squares, held as 64 bits.

use vstd::prelude::*;
use vstd::std_specs::bits::{u64_leading_zeros, u64_trailing_zeros};
use crate::color::Color;
use crate::square::{File, Rank, Square};

verus! {

/// Ranks 1 and 8.
pub const BACKRANKS: u64 = 0xff00_0000_0000_00ff;

/// The light squares, such as h1 and a8.
pub const LIGHT_SQUARES: u64 = 0x55aa_55aa_55aa_55aa;

/// The dark squares, such as a1 and h8.
pub const DARK_SQUARES: u64 = 0xaa55_aa55_aa55_aa55;

/// The four central squares d4, e4, d5 and e5.
pub const CENTER: u64 = 0x0000_0018_1800_0000;

/// The first rank.
pub const FIRST_RANK: u64 = 0xff;

/// The a-file.
pub const A_FILE: u64 = 0x0101_0101_0101_0101;

/// True if the square with index `i` is in the set `b`.
pub open spec fn has_bit(b: u64, i: int) -> bool {
    0 <= i < 64 && (b >> (i as u64)) & 1 == 1
}

/// The set that holds only the square with index `i`.
pub open spec fn bit(i: int) -> u64 {
    1u64 << (i as u64)
}

/// Index of the lowest square of a set, and 64 for the empty set.
pub open spec fn lsb(b: u64) -> int {
    u64_trailing_zeros(b) as int
}

/// Index of the highest square of a set, and -1 for the empty set.
pub open spec fn msb(b: u64) -> int {
    63 - u64_leading_zeros(b)
}

/// The set without its lowest square.
pub open spec fn drop_lsb(b: u64) -> u64 {
    b & ((b - 1) as u64)
}

/// The squares of a set, lowest index first.
pub open spec fn squares(b: u64) -> Seq<Square>
    decreases b,
{
    if b == 0 {
        Seq::empty()
    } else {
        proof {
            lemma_drop_lsb_decreases(b);
        }
        seq![Square::at(lsb(b))] + squares(drop_lsb(b))
    }
}

/// The number of squares of a set.
pub open spec fn count_spec(b: u64) -> nat
    decreases b,
{
    if b == 0 {
        0
    } else {
        proof {
            lemma_drop_lsb_decreases(b);
        }
        1 + count_spec(drop_lsb(b))
    }
}

/// The bits of `x` that `mask` selects, packed into the low bits of the
/// result: the lowest selected bit comes first.
pub open spec fn extract_spec(x: u64, mask: u64) -> u64
    decreases mask,
{
    if mask == 0 {
        0
    } else {
        proof {
            lemma_drop_lsb_decreases(mask);
        }
        let low: u64 = if has_bit(x, lsb(mask)) { 1 } else { 0 };
        (extract_spec(x, drop_lsb(mask)) << 1) | low
    }
}

/// The low bits of `y` spread over the squares of `mask`: the lowest bit
/// goes to the lowest square.
pub open spec fn deposit_spec(y: u64, mask: u64) -> u64
    decreases mask,
{
    if mask == 0 {
        0
    } else {
        proof {
            lemma_drop_lsb_decreases(mask);
        }
        let low: u64 = if y & 1 == 1 { bit(lsb(mask)) } else { 0 };
        deposit_spec(y >> 1, drop_lsb(mask)) | low
    }
}

/// The set of the squares with rank index `r`.
pub open spec fn rank_bits(r: int) -> u64 {
    FIRST_RANK << ((8 * r) as u64)
}

/// The set of the squares with file index `f`.
pub open spec fn file_bits(f: int) -> u64 {
    A_FILE << (f as u64)
}

/// The set of the squares with rank index `r`, counted from the side of
/// `color`.
pub open spec fn relative_rank_bits(color: Color, r: int) -> u64 {
    if color == Color::White {
        rank_bits(r)
    } else {
        rank_bits(7 - r)
    }
}

/// A set moved `shift` indexes forward, as `color` sees the board.
pub open spec fn relative_shift_spec(b: u64, color: Color, shift: int) -> u64 {
    if color == Color::White {
        b << (shift as u64)
    } else {
        b >> (shift as u64)
    }
}

/// The subset of `mask` that follows `subset` in the Carry-Rippler order.
pub open spec fn next_subset_spec(subset: u64, mask: u64) -> u64 {
    let difference = if subset >= mask {
        (subset - mask) as u64
    } else {
        (subset + 0x1_0000_0000_0000_0000 - mask) as u64
    };
    difference & mask
}

/// Dropping the lowest square makes a nonempty set smaller.
pub proof fn lemma_drop_lsb_decreases(b: u64)
    requires
        b != 0,
    ensures
        drop_lsb(b) < b,
{
    assert(b != 0 ==> b & ((b - 1) as u64) < b) by (bit_vector);
}

/// The lowest square of a nonempty set is on the board and in the set, and
/// dropping it removes that square and no other.
pub proof fn lemma_lsb(b: u64)
    requires
        b != 0,
    ensures
        0 <= lsb(b) < 64,
        has_bit(b, lsb(b)),
        drop_lsb(b) == b & !bit(lsb(b)),
        drop_lsb(b) < b,
        forall|i: int| 0 <= i < lsb(b) ==> !has_bit(b, i),
{
    vstd::std_specs::bits::axiom_u64_trailing_zeros(b);
    let t = u64_trailing_zeros(b) as u64;
    assert(t < 64);
    assert forall|i: int| 0 <= i < lsb(b) implies !has_bit(b, i) by {
        let j = i as u64;
        assert((b >> j) & 1u64 == 0u64);
    }
    let s: u64 = (64 - t) as u64;
    assert(b << s == 0);
    assert(b & ((b - 1) as u64) == b & !(1u64 << t)) by (bit_vector)
        requires
            t < 64,
            s == 64 - t,
            (b >> t) & 1 == 1,
            b << s == 0,
    ;
    lemma_drop_lsb_decreases(b);
}

/// Which squares a set keeps when its lowest square is dropped.
pub proof fn lemma_drop_lsb_bits(b: u64, i: int)
    requires
        b != 0,
    ensures
        has_bit(drop_lsb(b), i) <==> has_bit(b, i) && i != lsb(b),
        has_bit(drop_lsb(b), i) ==> i > lsb(b),
{
    lemma_lsb(b);
    let t = lsb(b) as u64;
    if 0 <= i < 64 {
        let j = i as u64;
        assert(((b & !(1u64 << t)) >> j) & 1 == 1 <==> ((b >> j) & 1 == 1 && j != t))
            by (bit_vector)
            requires
                t < 64,
                j < 64,
        ;
        if i < lsb(b) {
            assert(!has_bit(b, i));
        }
    }
}

/// The empty set holds no square.
pub proof fn lemma_no_bits(i: int)
    ensures
        !has_bit(0, i),
{
    let j = i as u64;
    assert((0u64 >> j) & 1 == 0) by (bit_vector);
}

/// A set that holds a square is not empty, and its lowest square is not
/// above that square.
pub proof fn lemma_has_bit_nonzero(b: u64, i: int)
    requires
        has_bit(b, i),
    ensures
        b != 0,
        lsb(b) <= i,
{
    let j = i as u64;
    assert((b >> j) & 1 == 1 ==> b != 0) by (bit_vector);
    lemma_lsb(b);
    if i < lsb(b) {
        assert(!has_bit(b, i));
    }
}

/// The squares of a set are exactly those whose bit is set, each has an
/// index below 64, and they come in strictly rising order.
pub proof fn lemma_squares(b: u64)
    ensures
        squares(b).len() == count_spec(b),
        forall|k: int| 0 <= k < squares(b).len() ==> has_bit(b, (#[trigger] squares(b)[k]).idx()),
        forall|i: int| has_bit(b, i) ==> squares(b).contains(#[trigger] Square::at(i)),
        forall|j: int, k: int|
            0 <= j < k < squares(b).len() ==> (#[trigger] squares(b)[j]).idx() < (
            #[trigger] squares(b)[k]).idx(),
    decreases b,
{
    broadcast use {Square::lemma_at_idx, Square::lemma_idx_at};

    if b != 0 {
        lemma_lsb(b);
        let rest = drop_lsb(b);
        lemma_squares(rest);
        let s = squares(b);
        let head = Square::at(lsb(b));
        assert(s[0] == head);
        assert forall|k: int| 0 <= k < s.len() implies has_bit(b, (#[trigger] s[k]).idx()) by {
            if k > 0 {
                assert(s[k] == squares(rest)[k - 1]);
                lemma_drop_lsb_bits(b, s[k].idx());
            }
        }
        assert forall|i: int| has_bit(b, i) implies s.contains(#[trigger] Square::at(i)) by {
            lemma_drop_lsb_bits(b, i);
            if i == lsb(b) {
                assert(s[0] == Square::at(i));
            } else {
                assert(has_bit(rest, i));
                assert(squares(rest).contains(Square::at(i)));
                let k = choose|k: int|
                    0 <= k < squares(rest).len() && squares(rest)[k] == Square::at(i);
                assert(s[k + 1] == Square::at(i));
            }
        }
        assert forall|j: int, k: int| 0 <= j < k < s.len() implies (#[trigger] s[j]).idx() < (
        #[trigger] s[k]).idx() by {
            assert(s[k] == squares(rest)[k - 1]);
            lemma_drop_lsb_bits(b, s[k].idx());
            if j > 0 {
                assert(s[j] == squares(rest)[j - 1]);
            }
        }
    } else {
        assert forall|i: int| !has_bit(b, i) by {
            lemma_no_bits(i);
        }
    }
}

/// A set has at most 64 squares.
pub proof fn lemma_count_bound(b: u64)
    ensures
        count_spec(b) <= 64,
        b != 0 ==> count_spec(b) + lsb(b) <= 64,
    decreases b,
{
    if b != 0 {
        lemma_lsb(b);
        let rest = drop_lsb(b);
        lemma_count_bound(rest);
        if rest != 0 {
            lemma_lsb(rest);
            lemma_drop_lsb_bits(b, lsb(rest));
        }
    }
}

/// Packs the bits of `x` that `mask` selects into the low bits.
pub fn extract_bits(x: u64, mask: u64) -> (r: u64)
    ensures
        r == extract_spec(x, mask),
    decreases mask,
{
    if mask == 0 {
        0
    } else {
        proof {
            lemma_lsb(mask);
        }
        let t = mask.trailing_zeros();
        let low: u64 = if (x >> t) & 1 == 1 { 1 } else { 0 };
        let rest = extract_bits(x, mask & (mask - 1));
        (rest << 1u32) | low
    }
}

/// Spreads the low bits of `y` over the squares of `mask`.
pub fn deposit_bits(y: u64, mask: u64) -> (r: u64)
    ensures
        r == deposit_spec(y, mask),
    decreases mask,
{
    if mask == 0 {
        0
    } else {
        proof {
            lemma_lsb(mask);
        }
        let t = mask.trailing_zeros();
        let low: u64 = if y & 1 == 1 { 1u64 << t } else { 0 };
        let rest = deposit_bits(y >> 1u32, mask & (mask - 1));
        rest | low
    }
}

/// A set of squares.
#[derive(Clone, Copy, Debug, PartialEq, Eq, Hash, Structural)]
pub struct Bitboard(pub u64);

impl Bitboard {
    /// True if the set holds the square.
    pub open spec fn has(self, sq: Square) -> bool {
        has_bit(self.0, sq.idx())
    }

    /// The squares of the set, lowest index first.
    pub open spec fn squares(self) -> Seq<Square> {
        squares(self.0)
    }

    /// The empty set.
    pub fn empty() -> (r: Bitboard)
        ensures
            r.0 == 0,
    {
        Bitboard(0)
    }

    /// The set of all 64 squares.
    pub fn all() -> (r: Bitboard)
        ensures
            r.0 == 0xffff_ffff_ffff_ffff,
    {
        Bitboard(0xffff_ffff_ffff_ffff)
    }

    /// The set that holds just the given square.
    pub fn from_square(sq: Square) -> (r: Bitboard)
        ensures
            r.0 == bit(sq.idx()),
    {
        Bitboard(1u64 << sq.index())
    }

    /// The squares of a rank.
    pub fn rank(rank: Rank) -> (r: Bitboard)
        ensures
            r.0 == rank_bits(rank.idx()),
    {
        Bitboard(FIRST_RANK << (8 * rank.index()))
    }

    /// The squares of a file.
    pub fn file(file: File) -> (r: Bitboard)
        ensures
            r.0 == file_bits(file.idx()),
    {
        Bitboard(A_FILE << file.index())
    }

    /// The squares of a rank, counted from the side of `color`.
    pub fn relative_rank(color: Color, rank: Rank) -> (r: Bitboard)
        ensures
            r.0 == relative_rank_bits(color, rank.idx()),
    {
        match color {
            Color::White => Bitboard(FIRST_RANK << (8 * rank.index())),
            Color::Black => Bitboard(FIRST_RANK << (8 * (7 - rank.index()))),
        }
    }

    /// Moves every square `shift` indexes forward, as `color` sees the
    /// board. Squares that leave the board are dropped.
    pub fn relative_shift(self, color: Color, shift: u8) -> (r: Bitboard)
        requires
            shift < 64,
        ensures
            r.0 == relative_shift_spec(self.0, color, shift as int),
    {
        match color {
            Color::White => Bitboard(self.0 << shift),
            Color::Black => Bitboard(self.0 >> shift),
        }
    }

    pub fn any(self) -> (r: bool)
        ensures
            r == (self.0 != 0),
    {
        self.0 != 0
    }

    pub fn is_empty(self) -> (r: bool)
        ensures
            r == (self.0 == 0),
    {
        self.0 == 0
    }

    pub fn contains(self, sq: Square) -> (r: bool)
        ensures
            r == self.has(sq),
    {
        let i = sq.index();
        let b = self.0;
        assert((b & (1u64 << i) != 0) == ((b >> i) & 1 == 1)) by (bit_vector)
            requires
                i < 64,
        ;
        b & (1u64 << i) != 0
    }

    /// Adds a square to the set.
    pub fn add(&mut self, sq: Square)
        ensures
            final(self).0 == old(self).0 | bit(sq.idx()),
    {
        self.0 = self.0 | (1u64 << sq.index());
    }

    /// Adds the squares of another set.
    pub fn add_all(&mut self, other: Bitboard)
        ensures
            final(self).0 == old(self).0 | other.0,
    {
        self.0 = self.0 | other.0;
    }

    /// Adds the square if the set lacks it, and removes it otherwise.
    pub fn toggle(&mut self, sq: Square)
        ensures
            final(self).0 == old(self).0 ^ bit(sq.idx()),
    {
        self.0 = self.0 ^ (1u64 << sq.index());
    }

    /// Removes a square from the set.
    pub fn discard(&mut self, sq: Square)
        ensures
            final(self).0 == old(self).0 & !bit(sq.idx()),
    {
        self.0 = self.0 & !(1u64 << sq.index());
    }

    /// Removes the squares of another set.
    pub fn discard_all(&mut self, other: Bitboard)
        ensures
            final(self).0 == old(self).0 & !other.0,
    {
        self.0 = self.0 & !other.0;
    }

    /// Removes a square, and tells whether the set held it.
    pub fn remove(&mut self, sq: Square) -> (r: bool)
        ensures
            r == old(self).has(sq),
            final(self).0 == old(self).0 & !bit(sq.idx()),
    {
        let r = self.contains(sq);
        self.0 = self.0 & !(1u64 << sq.index());
        r
    }

    /// Removes all squares.
    pub fn clear(&mut self)
        ensures
            final(self).0 == 0,
    {
        self.0 = 0;
    }

    /// The set with the square added.
    pub fn with(self, sq: Square) -> (r: Bitboard)
        ensures
            r.0 == self.0 | bit(sq.idx()),
    {
        Bitboard(self.0 | (1u64 << sq.index()))
    }

    /// The set with the square removed.
    pub fn without(self, sq: Square) -> (r: Bitboard)
        ensures
            r.0 == self.0 & !bit(sq.idx()),
    {
        Bitboard(self.0 & !(1u64 << sq.index()))
    }

    /// The squares of either set.
    pub fn union(self, other: Bitboard) -> (r: Bitboard)
        ensures
            r.0 == self.0 | other.0,
    {
        Bitboard(self.0 | other.0)
    }

    /// The squares of both sets.
    pub fn intersect(self, other: Bitboard) -> (r: Bitboard)
        ensures
            r.0 == self.0 & other.0,
    {
        Bitboard(self.0 & other.0)
    }

    /// The squares of this set that the other lacks.
    pub fn minus(self, other: Bitboard) -> (r: Bitboard)
        ensures
            r.0 == self.0 & !other.0,
    {
        Bitboard(self.0 & !other.0)
    }

    /// The squares of exactly one of the two sets.
    pub fn symmetric_difference(self, other: Bitboard) -> (r: Bitboard)
        ensures
            r.0 == self.0 ^ other.0,
    {
        Bitboard(self.0 ^ other.0)
    }

    /// The squares that the set lacks.
    pub fn complement(self) -> (r: Bitboard)
        ensures
            r.0 == !self.0,
    {
        Bitboard(!self.0)
    }

    pub fn is_subset(self, other: Bitboard) -> (r: bool)
        ensures
            r == (self.0 & !other.0 == 0),
    {
        self.0 & !other.0 == 0
    }

    pub fn is_disjoint(self, other: Bitboard) -> (r: bool)
        ensures
            r == (self.0 & other.0 == 0),
    {
        self.0 & other.0 == 0
    }

    /// The number of squares.
    pub fn count(self) -> (r: usize)
        ensures
            r == count_spec(self.0),
            r <= 64,
    {
        let mut b: u64 = self.0;
        let mut n: usize = 0;
        proof {
            lemma_count_bound(self.0);
        }
        while b != 0
            invariant
                n + count_spec(b) == count_spec(self.0),
                count_spec(self.0) <= 64,
            decreases b,
        {
            proof {
                lemma_drop_lsb_decreases(b);
            }
            b = b & (b - 1);
            n = n + 1;
        }
        n
    }

    /// The lowest square, if any.
    pub fn first(self) -> (r: Option<Square>)
        ensures
            r == (if self.0 == 0 { None::<Square> } else { Some(Square::at(lsb(self.0))) }),
            self.0 != 0 ==> r == Some(self.squares()[0]),
    {
        if self.0 == 0 {
            None
        } else {
            proof {
                lemma_lsb(self.0);
            }
            Square::new(self.0.trailing_zeros() as u8)
        }
    }

    /// The highest square, if any.
    pub fn last(self) -> (r: Option<Square>)
        ensures
            r == (if self.0 == 0 { None::<Square> } else { Some(Square::at(msb(self.0))) }),
    {
        if self.0 == 0 {
            None
        } else {
            proof {
                vstd::std_specs::bits::axiom_u64_leading_zeros(self.0);
            }
            Square::new((63 - self.0.leading_zeros()) as u8)
        }
    }

    /// The set without its lowest square.
    pub fn without_first(self) -> (r: Bitboard)
        ensures
            r.0 == (if self.0 == 0 { 0 } else { drop_lsb(self.0) }),
            self.0 != 0 ==> r.0 < self.0,
    {
        if self.0 == 0 {
            self
        } else {
            proof {
                lemma_drop_lsb_decreases(self.0);
            }
            Bitboard(self.0 & (self.0 - 1))
        }
    }

    /// Removes and returns the lowest square, if any.
    pub fn pop_front(&mut self) -> (r: Option<Square>)
        ensures
            r == (if old(self).0 == 0 { None::<Square> } else { Some(Square::at(lsb(old(self).0)))
            }),
            final(self).0 == (if old(self).0 == 0 { 0 } else { drop_lsb(old(self).0) }),
    {
        let r = self.first();
        let rest = self.without_first();
        self.0 = rest.0;
        r
    }

    pub open spec fn more_than_one_spec(self) -> bool {
        drop_lsb(self.0) != 0 && self.0 != 0
    }

    /// True if the set holds two squares or more.
    pub fn more_than_one(self) -> (r: bool)
        ensures
            r == self.more_than_one_spec(),
            r == (count_spec(self.0) > 1),
    {
        proof {
            if self.0 != 0 {
                lemma_drop_lsb_decreases(self.0);
                assert(count_spec(self.0) == 1 + count_spec(drop_lsb(self.0)));
                if drop_lsb(self.0) != 0 {
                    lemma_drop_lsb_decreases(drop_lsb(self.0));
                }
            }
        }
        self.0 != 0 && self.0 & (self.0 - 1) != 0
    }

    /// The only square of the set, if it holds exactly one.
    pub fn single_square(self) -> (r: Option<Square>)
        ensures
            r == (if self.0 != 0 && drop_lsb(self.0) == 0 {
                Some(Square::at(lsb(self.0)))
            } else {
                None::<Square>
            }),
            r.is_some() == (count_spec(self.0) == 1),
    {
        if self.more_than_one() {
            None
        } else {
            self.first()
        }
    }

    /// The bits that `mask` selects, packed into the low bits.
    pub fn extract(self, mask: Bitboard) -> (r: u64)
        ensures
            r == extract_spec(self.0, mask.0),
    {
        extract_bits(self.0, mask.0)
    }

    /// The low bits of `bits`, spread over the squares of `mask`.
    pub fn deposit(bits: u64, mask: Bitboard) -> (r: Bitboard)
        ensures
            r.0 == deposit_spec(bits, mask.0),
    {
        Bitboard(deposit_bits(bits, mask.0))
    }

    /// The subset of `self` that follows `subset` in the Carry-Rippler
    /// order, which starts with the empty set and returns to it after the
    /// full set.
    pub fn next_subset(self, subset: Bitboard) -> (r: Bitboard)
        ensures
            r.0 == next_subset_spec(subset.0, self.0),
    {
        Bitboard(subset.0.wrapping_sub(self.0) & self.0)
    }

    /// The squares of the set, lowest index first.
    pub fn to_vec(self) -> (r: Vec<Square>)
        ensures
            r@ == self.squares(),
    {
        let mut out: Vec<Square> = Vec::new();
        let mut b: u64 = self.0;
        while b != 0
            invariant
                out@ + squares(b) == squares(self.0),
            decreases b,
        {
            proof {
                lemma_lsb(b);
            }
            let ghost before = out@;
            let ghost head = Square::at(lsb(b));
            match Square::new(b.trailing_zeros() as u8) {
                Some(sq) => {
                    out.push(sq);
                },
                None => {},
            }
            b = b & (b - 1);
            assert(out@ + squares(b) =~= before + (seq![head] + squares(b)));
        }
        assert(out@ + squares(0) =~= out@);
        out
    }
}

impl core::ops::BitAnd for Bitboard {
    type Output = Bitboard;

    fn bitand(self, rhs: Bitboard) -> (r: Bitboard) {
        Bitboard(self.0 & rhs.0)
    }
}

impl vstd::std_specs::ops::BitAndSpecImpl for Bitboard {
    open spec fn obeys_bitand_spec() -> bool {
        true
    }

    open spec fn bitand_req(self, rhs: Bitboard) -> bool {
        true
    }

    open spec fn bitand_spec(self, rhs: Bitboard) -> Bitboard {
        Bitboard(self.0 & rhs.0)
    }
}

impl core::ops::BitOr for Bitboard {
    type Output = Bitboard;

    fn bitor(self, rhs: Bitboard) -> (r: Bitboard) {
        Bitboard(self.0 | rhs.0)
    }
}

impl vstd::std_specs::ops::BitOrSpecImpl for Bitboard {
    open spec fn obeys_bitor_spec() -> bool {
        true
    }

    open spec fn bitor_req(self, rhs: Bitboard) -> bool {
        true
    }

    open spec fn bitor_spec(self, rhs: Bitboard) -> Bitboard {
        Bitboard(self.0 | rhs.0)
    }
}

impl core::ops::BitXor for Bitboard {
    type Output = Bitboard;

    fn bitxor(self, rhs: Bitboard) -> (r: Bitboard) {
        Bitboard(self.0 ^ rhs.0)
    }
}

impl vstd::std_specs::ops::BitXorSpecImpl for Bitboard {
    open spec fn obeys_bitxor_spec() -> bool {
        true
    }

    open spec fn bitxor_req(self, rhs: Bitboard) -> bool {
        true
    }

    open spec fn bitxor_spec(self, rhs: Bitboard) -> Bitboard {
        Bitboard(self.0 ^ rhs.0)
    }
}

impl core::ops::Not for Bitboard {
    type Output = Bitboard;

    fn not(self) -> (r: Bitboard) {
        Bitboard(!self.0)
    }
}

impl vstd::std_specs::ops::NotSpecImpl for Bitboard {
    open spec fn obeys_not_spec() -> bool {
        true
    }

    open spec fn not_req(self) -> bool {
        true
    }

    open spec fn not_spec(self) -> Bitboard {
        Bitboard(!self.0)
    }
}

impl From<Square> for Bitboard {
    fn from(sq: Square) -> (r: Bitboard) {
        Bitboard::from_square(sq)
    }
}

impl vstd::std_specs::convert::FromSpecImpl<Square> for Bitboard {
    open spec fn obeys_from_spec() -> bool {
        true
    }

    open spec fn from_spec(sq: Square) -> Bitboard {
        Bitboard(bit(sq.idx()))
    }
}

impl Default for Bitboard {
    fn default() -> (r: Bitboard)
        ensures
            r.0 == 0,
    {
        Bitboard(0)
    }
}

} // verus!
