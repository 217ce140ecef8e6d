//! Attacks of the pieces, and the lines between squares.

use vstd::prelude::*;
use crate::bitboard::{bit, has_bit, Bitboard};
use crate::color::Color;
use crate::square::{distance_spec, Square};
use crate::types::{Piece, Role};

verus! {

pub const ALL_SQUARES: u64 = 0xffff_ffff_ffff_ffff;

/// The squares that a piece reaches from the square with index `s` when it
/// walks in steps of `delta`: it stops at the edge of the board (a step may
/// not span more than two files or ranks), and on the first occupied
/// square, which it still reaches. A step of zero leads nowhere.
pub open spec fn slide(s: int, occupied: u64, delta: int) -> u64
    decreases
        (if delta > 0 {
            64 - s
        } else {
            s + 1
        }),
{
    let n = s + delta;
    if delta == 0 || !(0 <= s < 64) || !(0 <= n < 64) || distance_spec(n, s) > 2 {
        0
    } else if has_bit(occupied, n) {
        bit(n)
    } else {
        bit(n) | slide(n, occupied, delta)
    }
}

/// The squares reached from `s` along any of the steps `deltas`.
pub open spec fn sliding_attacks_spec(s: int, occupied: u64, deltas: Seq<i8>) -> u64
    decreases deltas.len(),
{
    if deltas.len() == 0 {
        0
    } else {
        sliding_attacks_spec(s, occupied, deltas.drop_last()) | slide(
            s,
            occupied,
            deltas.last() as int,
        )
    }
}

pub open spec fn rook_deltas() -> Seq<i8> {
    seq![8i8, 1i8, -8i8, -1i8]
}

pub open spec fn bishop_deltas() -> Seq<i8> {
    seq![9i8, 7i8, -9i8, -7i8]
}

pub open spec fn king_deltas() -> Seq<i8> {
    seq![9i8, 8i8, 7i8, 1i8, -9i8, -8i8, -7i8, -1i8]
}

pub open spec fn knight_deltas() -> Seq<i8> {
    seq![17i8, 15i8, 10i8, 6i8, -17i8, -15i8, -10i8, -6i8]
}

pub open spec fn white_pawn_deltas() -> Seq<i8> {
    seq![7i8, 9i8]
}

pub open spec fn black_pawn_deltas() -> Seq<i8> {
    seq![-7i8, -9i8]
}

/// The squares one step away from `s` along any of `deltas`.
pub open spec fn step_attacks_spec(s: int, deltas: Seq<i8>) -> u64 {
    sliding_attacks_spec(s, ALL_SQUARES, deltas)
}

pub open spec fn rook_attacks_spec(s: int, occupied: u64) -> u64 {
    sliding_attacks_spec(s, occupied, rook_deltas())
}

pub open spec fn bishop_attacks_spec(s: int, occupied: u64) -> u64 {
    sliding_attacks_spec(s, occupied, bishop_deltas())
}

pub open spec fn queen_attacks_spec(s: int, occupied: u64) -> u64 {
    rook_attacks_spec(s, occupied) | bishop_attacks_spec(s, occupied)
}

pub open spec fn knight_attacks_spec(s: int) -> u64 {
    step_attacks_spec(s, knight_deltas())
}

pub open spec fn king_attacks_spec(s: int) -> u64 {
    step_attacks_spec(s, king_deltas())
}

pub open spec fn pawn_attacks_spec(color: Color, s: int) -> u64 {
    match color {
        Color::White => step_attacks_spec(s, white_pawn_deltas()),
        Color::Black => step_attacks_spec(s, black_pawn_deltas()),
    }
}

/// The squares that a piece on `s` attacks.
pub open spec fn attacks_spec(s: int, piece: Piece, occupied: u64) -> u64 {
    match piece.role {
        Role::Pawn => pawn_attacks_spec(piece.color, s),
        Role::Knight => knight_attacks_spec(s),
        Role::Bishop => bishop_attacks_spec(s, occupied),
        Role::Rook => rook_attacks_spec(s, occupied),
        Role::Queen => queen_attacks_spec(s, occupied),
        Role::King => king_attacks_spec(s),
    }
}

/// The whole line through `a` and `b`, if they share a rank, a file or a
/// diagonal, and the empty set otherwise.
pub open spec fn ray_spec(a: int, b: int) -> u64 {
    if has_bit(bishop_attacks_spec(a, 0), b) {
        (bishop_attacks_spec(a, 0) & bishop_attacks_spec(b, 0)) | bit(a) | bit(b)
    } else if has_bit(rook_attacks_spec(a, 0), b) {
        (rook_attacks_spec(a, 0) & rook_attacks_spec(b, 0)) | bit(a) | bit(b)
    } else {
        0
    }
}

/// The squares strictly between `a` and `b`, if they share a rank, a file
/// or a diagonal, and the empty set otherwise.
pub open spec fn between_spec(a: int, b: int) -> u64 {
    if has_bit(bishop_attacks_spec(a, 0), b) {
        bishop_attacks_spec(a, bit(b)) & bishop_attacks_spec(b, bit(a))
    } else if has_bit(rook_attacks_spec(a, 0), b) {
        rook_attacks_spec(a, bit(b)) & rook_attacks_spec(b, bit(a))
    } else {
        0
    }
}

/// True if `c` lies on the line through `a` and `b`.
pub open spec fn aligned_spec(a: int, b: int, c: int) -> bool {
    has_bit(ray_spec(a, b), c)
}

/// Number of king steps between two square indexes.
fn index_distance(a: u8, b: u8) -> (r: u8)
    requires
        a < 64,
        b < 64,
    ensures
        r == distance_spec(a as int, b as int),
{
    let (f1, f2) = (a % 8, b % 8);
    let (r1, r2) = (a / 8, b / 8);
    let df: u8 = if f1 < f2 { f2 - f1 } else { f1 - f2 };
    let dr: u8 = if r1 < r2 { r2 - r1 } else { r1 - r2 };
    if df < dr {
        dr
    } else {
        df
    }
}

/// Walks from the square with index `s` in steps of `delta`.
fn slide_from(s: u8, occupied: u64, delta: i8) -> (r: u64)
    requires
        s < 64,
    ensures
        r == slide(s as int, occupied, delta as int),
    decreases
        (if delta > 0 {
            64 - s
        } else {
            s + 1
        }),
{
    let n: i16 = s as i16 + delta as i16;
    if delta == 0 || n < 0 || n >= 64 {
        return 0;
    }
    let n: u8 = n as u8;
    if index_distance(n, s) > 2 {
        return 0;
    }
    assert((occupied & (1u64 << n) != 0) == ((occupied >> n) & 1 == 1)) by (bit_vector)
        requires
            n < 64,
    ;
    if occupied & (1u64 << n) != 0 {
        1u64 << n
    } else {
        (1u64 << n) | slide_from(n, occupied, delta)
    }
}

/// The squares reached from `sq` along any of the steps `deltas`, with the
/// given squares occupied.
pub fn sliding_attacks(sq: Square, occupied: Bitboard, deltas: &[i8]) -> (r: Bitboard)
    ensures
        r.0 == sliding_attacks_spec(sq.idx(), occupied.0, deltas@),
{
    let s = sq.index();
    let mut attack: u64 = 0;
    let mut i: usize = 0;
    while i < deltas.len()
        invariant
            i <= deltas.len(),
            s == sq.idx(),
            s < 64,
            attack == sliding_attacks_spec(s as int, occupied.0, deltas@.subrange(0, i as int)),
        decreases deltas.len() - i,
    {
        attack = attack | slide_from(s, occupied.0, deltas[i]);
        i = i + 1;
        proof {
            let prefix = deltas@.subrange(0, i as int);
            assert(prefix.drop_last() =~= deltas@.subrange(0, i - 1));
        }
    }
    assert(deltas@.subrange(0, i as int) =~= deltas@);
    Bitboard(attack)
}

/// The squares one step away from `sq` along any of `deltas`.
pub fn step_attacks(sq: Square, deltas: &[i8]) -> (r: Bitboard)
    ensures
        r.0 == step_attacks_spec(sq.idx(), deltas@),
{
    sliding_attacks(sq, Bitboard(ALL_SQUARES), deltas)
}

/// The squares that a pawn of `color` on `sq` attacks.
pub fn pawn_attacks(color: Color, sq: Square) -> (r: Bitboard)
    ensures
        r.0 == pawn_attacks_spec(color, sq.idx()),
{
    match color {
        Color::White => {
            let deltas: [i8; 2] = [7, 9];
            assert(deltas@ =~= white_pawn_deltas());
            step_attacks(sq, deltas.as_slice())
        },
        Color::Black => {
            let deltas: [i8; 2] = [-7, -9];
            assert(deltas@ =~= black_pawn_deltas());
            step_attacks(sq, deltas.as_slice())
        },
    }
}

/// The squares that a knight on `sq` attacks.
pub fn knight_attacks(sq: Square) -> (r: Bitboard)
    ensures
        r.0 == knight_attacks_spec(sq.idx()),
{
    let deltas: [i8; 8] = [17, 15, 10, 6, -17, -15, -10, -6];
    assert(deltas@ =~= knight_deltas());
    step_attacks(sq, deltas.as_slice())
}

/// The squares that a king on `sq` attacks.
pub fn king_attacks(sq: Square) -> (r: Bitboard)
    ensures
        r.0 == king_attacks_spec(sq.idx()),
{
    let deltas: [i8; 8] = [9, 8, 7, 1, -9, -8, -7, -1];
    assert(deltas@ =~= king_deltas());
    step_attacks(sq, deltas.as_slice())
}

/// The squares that a rook on `sq` attacks, with the given squares
/// occupied.
pub fn rook_attacks(sq: Square, occupied: Bitboard) -> (r: Bitboard)
    ensures
        r.0 == rook_attacks_spec(sq.idx(), occupied.0),
{
    let deltas: [i8; 4] = [8, 1, -8, -1];
    assert(deltas@ =~= rook_deltas());
    sliding_attacks(sq, occupied, deltas.as_slice())
}

/// The squares that a bishop on `sq` attacks, with the given squares
/// occupied.
pub fn bishop_attacks(sq: Square, occupied: Bitboard) -> (r: Bitboard)
    ensures
        r.0 == bishop_attacks_spec(sq.idx(), occupied.0),
{
    let deltas: [i8; 4] = [9, 7, -9, -7];
    assert(deltas@ =~= bishop_deltas());
    sliding_attacks(sq, occupied, deltas.as_slice())
}

/// The squares that a queen on `sq` attacks, with the given squares
/// occupied.
pub fn queen_attacks(sq: Square, occupied: Bitboard) -> (r: Bitboard)
    ensures
        r.0 == queen_attacks_spec(sq.idx(), occupied.0),
{
    Bitboard(rook_attacks(sq, occupied).0 | bishop_attacks(sq, occupied).0)
}

/// The squares that `piece` attacks from `sq`, with the given squares
/// occupied.
pub fn attacks(sq: Square, piece: Piece, occupied: Bitboard) -> (r: Bitboard)
    ensures
        r.0 == attacks_spec(sq.idx(), piece, occupied.0),
{
    match piece.role {
        Role::Pawn => pawn_attacks(piece.color, sq),
        Role::Knight => knight_attacks(sq),
        Role::Bishop => bishop_attacks(sq, occupied),
        Role::Rook => rook_attacks(sq, occupied),
        Role::Queen => queen_attacks(sq, occupied),
        Role::King => king_attacks(sq),
    }
}

/// The whole line through `a` and `b`, if there is one.
pub fn ray(a: Square, b: Square) -> (r: Bitboard)
    ensures
        r.0 == ray_spec(a.idx(), b.idx()),
{
    let none = Bitboard(0);
    let bishop_a = bishop_attacks(a, none);
    if bishop_a.contains(b) {
        Bitboard((bishop_a.0 & bishop_attacks(b, none).0) | (1u64 << a.index()) | (1u64 << b.index()))
    } else {
        let rook_a = rook_attacks(a, none);
        if rook_a.contains(b) {
            Bitboard((rook_a.0 & rook_attacks(b, none).0) | (1u64 << a.index()) | (1u64 << b.index()))
        } else {
            none
        }
    }
}

/// The squares strictly between `a` and `b`, if they share a line.
pub fn between(a: Square, b: Square) -> (r: Bitboard)
    ensures
        r.0 == between_spec(a.idx(), b.idx()),
{
    let none = Bitboard(0);
    if bishop_attacks(a, none).contains(b) {
        Bitboard(
            bishop_attacks(a, Bitboard::from_square(b)).0 & bishop_attacks(
                b,
                Bitboard::from_square(a),
            ).0,
        )
    } else if rook_attacks(a, none).contains(b) {
        Bitboard(
            rook_attacks(a, Bitboard::from_square(b)).0 & rook_attacks(
                b,
                Bitboard::from_square(a),
            ).0,
        )
    } else {
        none
    }
}

/// True if `c` lies on the line through `a` and `b`.
pub fn aligned(a: Square, b: Square, c: Square) -> (r: bool)
    ensures
        r == aligned_spec(a.idx(), b.idx(), c.idx()),
{
    ray(a, b).contains(c)
}

} // verus!
