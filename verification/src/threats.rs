//! What stands on a square, and which pieces threaten a square, said
//! square by square.

use vstd::prelude::*;
use crate::attacks::{
    bishop_attacks_spec, king_attacks_spec, knight_attacks_spec, pawn_attacks_spec,
    rook_attacks_spec,
};
use crate::bitboard::{
    bit, drop_lsb, has_bit, lemma_drop_lsb_bits, lemma_drop_lsb_decreases, lemma_has_bit_nonzero,
    lemma_lsb, lemma_no_bits, lsb,
};
use crate::board::BoardView;
use crate::color::Color;
use crate::laws::{at_most_one, lemma_roles, lemma_single};
use crate::magic::lemma_set_bits;
use crate::movegen::fold_or;
use crate::square::Square;
use crate::types::Role;

verus! {

/// A set whose only square is `a` has `a` as its lowest square and
/// nothing else.
pub proof fn lemma_only_bit(x: u64, a: int)
    requires
        has_bit(x, a),
        forall|j: int| 0 <= j < 64 && has_bit(x, j) ==> j == a,
    ensures
        x != 0,
        lsb(x) == a,
        drop_lsb(x) == 0,
{
    lemma_has_bit_nonzero(x, a);
    lemma_lsb(x);
    if drop_lsb(x) != 0 {
        lemma_lsb(drop_lsb(x));
        lemma_drop_lsb_bits(x, lsb(drop_lsb(x)));
    }
}

/// Two squares of a set that holds one square at most are the same.
pub proof fn lemma_at_most_one_bits(x: u64, a: int, j: int)
    requires
        at_most_one(x),
        has_bit(x, a),
        has_bit(x, j),
    ensures
        j == a,
        lsb(x) == a,
{
    lemma_has_bit_nonzero(x, a);
    lemma_drop_lsb_bits(x, a);
    lemma_drop_lsb_bits(x, j);
    lemma_no_bits(a);
    lemma_no_bits(j);
}

/// On a well formed board a square is in the set of a role exactly if
/// that is the role on it, and in the set of a color exactly if that is
/// the color on it; it has a role exactly if it has a color.
pub proof fn lemma_piece_at(board: BoardView, i: int)
    requires
        board.wf(),
        0 <= i < 64,
    ensures
        forall|r: Role| has_bit(#[trigger] board.by_role(r), i) <==> board.role_at(i) == Some(r),
        forall|c: Color| has_bit(#[trigger] board.by_color(c), i) <==> board.color_at(i) == Some(c),
        board.role_at(i).is_some() <==> board.color_at(i).is_some(),
        has_bit(board.occupied(), i) <==> board.color_at(i).is_some(),
{
    lemma_roles(board, i);
    lemma_no_bits(i);
    lemma_set_bits(board.pawns, board.knights, i);
    lemma_set_bits(board.pawns, board.bishops, i);
    lemma_set_bits(board.pawns, board.rooks, i);
    lemma_set_bits(board.pawns, board.queens, i);
    lemma_set_bits(board.pawns, board.kings, i);
    lemma_set_bits(board.knights, board.bishops, i);
    lemma_set_bits(board.knights, board.rooks, i);
    lemma_set_bits(board.knights, board.queens, i);
    lemma_set_bits(board.knights, board.kings, i);
    lemma_set_bits(board.bishops, board.rooks, i);
    lemma_set_bits(board.bishops, board.queens, i);
    lemma_set_bits(board.bishops, board.kings, i);
    lemma_set_bits(board.rooks, board.queens, i);
    lemma_set_bits(board.rooks, board.kings, i);
    lemma_set_bits(board.queens, board.kings, i);
    assert forall|r: Role| has_bit(#[trigger] board.by_role(r), i) <==> board.role_at(i) == Some(
        r,
    ) by {
        match r {
            Role::Pawn => {},
            Role::Knight => {},
            Role::Bishop => {},
            Role::Rook => {},
            Role::Queen => {},
            Role::King => {},
        }
    }
    assert forall|c: Color| has_bit(#[trigger] board.by_color(c), i) <==> board.color_at(i) == Some(
        c,
    ) by {
        match c {
            Color::White => {},
            Color::Black => {},
        }
    }
}

/// Which squares one of the sets of a board holds after a square is
/// emptied and the set is given the square or not.
pub proof fn lemma_patched_set(x: u64, i: int, add: bool, e: int)
    requires
        0 <= i < 64,
        0 <= e < 64,
    ensures
        has_bit((x & !bit(i)) | (if add { bit(i) } else { 0 }), e) <==> (if e == i {
            add
        } else {
            has_bit(x, e)
        }),
{
    let m = bit(i);
    let zero = 0u64;
    lemma_single(i, e);
    lemma_no_bits(e);
    lemma_set_bits(m, 0, e);
    lemma_set_bits(x, !m, e);
    lemma_set_bits(x & !m, if add { m } else { zero }, e);
}

/// What stands on a square after one square of the board is emptied and a
/// piece, or none, is put there.
pub proof fn lemma_patched_at(
    board: BoardView,
    i: int,
    role: Option<Role>,
    color: Option<Color>,
    promoted: bool,
    e: int,
)
    requires
        0 <= i < 64,
        0 <= e < 64,
    ensures
        e != i ==> board.patched(bit(i), role, color, promoted).role_at(e) == board.role_at(e),
        e != i ==> board.patched(bit(i), role, color, promoted).color_at(e) == board.color_at(e),
        board.patched(bit(i), role, color, promoted).role_at(i) == role,
        board.patched(bit(i), role, color, promoted).color_at(i) == color,
{
    lemma_patched_set(board.pawns, i, role == Some(Role::Pawn), e);
    lemma_patched_set(board.knights, i, role == Some(Role::Knight), e);
    lemma_patched_set(board.bishops, i, role == Some(Role::Bishop), e);
    lemma_patched_set(board.rooks, i, role == Some(Role::Rook), e);
    lemma_patched_set(board.queens, i, role == Some(Role::Queen), e);
    lemma_patched_set(board.kings, i, role == Some(Role::King), e);
    lemma_patched_set(board.white, i, color == Some(Color::White), e);
    lemma_patched_set(board.black, i, color == Some(Color::Black), e);
    lemma_patched_set(board.pawns, i, role == Some(Role::Pawn), i);
    lemma_patched_set(board.knights, i, role == Some(Role::Knight), i);
    lemma_patched_set(board.bishops, i, role == Some(Role::Bishop), i);
    lemma_patched_set(board.rooks, i, role == Some(Role::Rook), i);
    lemma_patched_set(board.queens, i, role == Some(Role::Queen), i);
    lemma_patched_set(board.kings, i, role == Some(Role::King), i);
    lemma_patched_set(board.white, i, color == Some(Color::White), i);
    lemma_patched_set(board.black, i, color == Some(Color::Black), i);
    let after = board.patched(bit(i), role, color, promoted);
    match role {
        Some(Role::Pawn) => {
            assert(has_bit(after.pawns, i));
        },
        Some(Role::Knight) => {
            assert(has_bit(after.knights, i) && !has_bit(after.pawns, i));
        },
        Some(Role::Bishop) => {
            assert(has_bit(after.bishops, i) && !has_bit(after.pawns, i));
        },
        Some(Role::Rook) => {
            assert(has_bit(after.rooks, i) && !has_bit(after.pawns, i));
        },
        Some(Role::Queen) => {
            assert(has_bit(after.queens, i) && !has_bit(after.pawns, i));
        },
        Some(Role::King) => {
            assert(has_bit(after.kings, i) && !has_bit(after.pawns, i));
        },
        None => {
            assert(!has_bit(after.kings, i) && !has_bit(after.pawns, i));
        },
    }
    match color {
        Some(Color::White) => {
            assert(has_bit(after.white, i));
        },
        Some(Color::Black) => {
            assert(has_bit(after.black, i) && !has_bit(after.white, i));
        },
        None => {
            assert(!has_bit(after.black, i) && !has_bit(after.white, i));
        },
    }
}

/// True if a piece of `role` and color `by` on `x` attacks `k` with the
/// given squares occupied, seen from `k`: a rook, bishop or queen is
/// reached from `k` along its lines, a knight or king by its step, and a
/// pawn as a pawn of the other color on `k` would capture.
pub open spec fn reaches(role: Option<Role>, by: Color, k: int, occupied: u64, x: int) -> bool {
    match role {
        Some(Role::Pawn) => has_bit(pawn_attacks_spec(by.other_spec(), k), x),
        Some(Role::Knight) => has_bit(knight_attacks_spec(k), x),
        Some(Role::Bishop) => has_bit(bishop_attacks_spec(k, occupied), x),
        Some(Role::Rook) => has_bit(rook_attacks_spec(k, occupied), x),
        Some(Role::Queen) => has_bit(rook_attacks_spec(k, occupied), x) || has_bit(
            bishop_attacks_spec(k, occupied),
            x,
        ),
        Some(Role::King) => has_bit(king_attacks_spec(k), x),
        None => false,
    }
}

/// True if a piece of color `by` stands on `x` and attacks `k`.
pub open spec fn threat(board: BoardView, k: int, by: Color, occupied: u64, x: int) -> bool {
    board.color_at(x) == Some(by) && reaches(board.role_at(x), by, k, occupied, x)
}

/// The attackers of a square are the pieces that threaten it.
pub proof fn lemma_threat(board: BoardView, k: int, by: Color, occupied: u64, x: int)
    requires
        board.wf(),
        0 <= x < 64,
    ensures
        has_bit(board.attacks_to(k, by, occupied), x) <==> threat(board, k, by, occupied, x),
{
    lemma_piece_at(board, x);
    let r = rook_attacks_spec(k, occupied);
    let b = bishop_attacks_spec(k, occupied);
    let n = knight_attacks_spec(k);
    let g = king_attacks_spec(k);
    let p = pawn_attacks_spec(by.other_spec(), k);
    let rq = board.rooks | board.queens;
    let bq = board.bishops | board.queens;
    lemma_set_bits(board.rooks, board.queens, x);
    lemma_set_bits(board.bishops, board.queens, x);
    lemma_set_bits(r, rq, x);
    lemma_set_bits(b, bq, x);
    lemma_set_bits(n, board.knights, x);
    lemma_set_bits(g, board.kings, x);
    lemma_set_bits(p, board.pawns, x);
    lemma_set_bits(r & rq, b & bq, x);
    lemma_set_bits((r & rq) | (b & bq), n & board.knights, x);
    lemma_set_bits((r & rq) | (b & bq) | (n & board.knights), g & board.kings, x);
    lemma_set_bits(
        (r & rq) | (b & bq) | (n & board.knights) | (g & board.kings),
        p & board.pawns,
        x,
    );
    lemma_set_bits(
        board.by_color(by),
        (r & rq) | (b & bq) | (n & board.knights) | (g & board.kings) | (p & board.pawns),
        x,
    );
    assert(has_bit(board.by_role(Role::Pawn), x) <==> board.role_at(x) == Some(Role::Pawn));
    assert(has_bit(board.by_role(Role::Knight), x) <==> board.role_at(x) == Some(Role::Knight));
    assert(has_bit(board.by_role(Role::Bishop), x) <==> board.role_at(x) == Some(Role::Bishop));
    assert(has_bit(board.by_role(Role::Rook), x) <==> board.role_at(x) == Some(Role::Rook));
    assert(has_bit(board.by_role(Role::Queen), x) <==> board.role_at(x) == Some(Role::Queen));
    assert(has_bit(board.by_role(Role::King), x) <==> board.role_at(x) == Some(Role::King));
    assert(has_bit(board.by_color(by), x) <==> board.color_at(x) == Some(by));
}

/// A square that no piece threatens has no attackers.
pub proof fn lemma_no_threat(board: BoardView, k: int, by: Color, occupied: u64)
    requires
        board.wf(),
        forall|x: int| 0 <= x < 64 ==> !threat(board, k, by, occupied, x),
    ensures
        board.attacks_to(k, by, occupied) == 0,
{
    let a = board.attacks_to(k, by, occupied);
    if a != 0 {
        lemma_lsb(a);
        lemma_threat(board, k, by, occupied, lsb(a));
    }
}

/// A square without attackers is threatened by no piece.
pub proof fn lemma_not_attacked(board: BoardView, k: int, by: Color, occupied: u64, x: int)
    requires
        board.wf(),
        0 <= x < 64,
        board.attacks_to(k, by, occupied) == 0,
    ensures
        !threat(board, k, by, occupied, x),
{
    lemma_threat(board, k, by, occupied, x);
    lemma_no_bits(x);
}

/// The highest square of a nonempty set is on the board and in the set.
pub proof fn lemma_msb(b: u64)
    requires
        b != 0,
    ensures
        0 <= crate::bitboard::msb(b) < 64,
        has_bit(b, crate::bitboard::msb(b)),
        forall|j: int| crate::bitboard::msb(b) < j < 64 ==> !has_bit(b, j),
{
    vstd::std_specs::bits::axiom_u64_leading_zeros(b);
    let t = (63 - vstd::std_specs::bits::u64_leading_zeros(b)) as u64;
    let y = b >> t;
    assert(y & 1 != 0 ==> y & 1 == 1) by (bit_vector);
    assert forall|j: int| crate::bitboard::msb(b) < j < 64 implies !has_bit(b, j) by {
        let k = j as u64;
        assert((b >> k) & 1u64 == 0u64);
    }
}

/// A square is in the symmetric difference of two sets exactly if it is in
/// one of them and not in the other.
pub proof fn lemma_xor_bits(a: u64, b: u64, i: int)
    requires
        0 <= i < 64,
    ensures
        has_bit(a ^ b, i) <==> has_bit(a, i) != has_bit(b, i),
{
    let j = i as u64;
    assert(j < 64 ==> ((((a ^ b) >> j) & 1 == 1) <==> (((a >> j) & 1 == 1) != ((b >> j) & 1
        == 1)))) by (bit_vector);
}

/// What has been gathered stays in the union that `fold_or` builds.
pub proof fn lemma_fold_or_keeps(set: u64, f: spec_fn(Square) -> u64, acc: u64, i: int)
    requires
        0 <= i < 64,
        has_bit(acc, i),
    ensures
        has_bit(fold_or(set, f, acc), i),
    decreases set,
{
    if set != 0 {
        lemma_drop_lsb_decreases(set);
        lemma_set_bits(acc, f(Square::at(lsb(set))), i);
        lemma_fold_or_keeps(drop_lsb(set), f, acc | f(Square::at(lsb(set))), i);
    }
}

/// The union that `fold_or` builds holds what `f` gives for each square of
/// the set.
pub proof fn lemma_fold_or_has(set: u64, f: spec_fn(Square) -> u64, acc: u64, x: int, i: int)
    requires
        0 <= i < 64,
        has_bit(set, x),
        has_bit(f(Square::at(x)), i),
    ensures
        has_bit(fold_or(set, f, acc), i),
    decreases set,
{
    lemma_has_bit_nonzero(set, x);
    lemma_drop_lsb_decreases(set);
    lemma_drop_lsb_bits(set, x);
    let next = acc | f(Square::at(lsb(set)));
    lemma_set_bits(acc, f(Square::at(lsb(set))), i);
    if x == lsb(set) {
        lemma_fold_or_keeps(drop_lsb(set), f, next, i);
    } else {
        lemma_fold_or_has(drop_lsb(set), f, next, x, i);
    }
}

/// What the union that `fold_or` builds holds beyond what was gathered
/// before comes from a square of the set.
pub proof fn lemma_fold_or_some(set: u64, f: spec_fn(Square) -> u64, acc: u64, i: int) -> (x: int)
    requires
        0 <= i < 64,
        has_bit(fold_or(set, f, acc), i),
        !has_bit(acc, i),
    ensures
        0 <= x < 64,
        has_bit(set, x),
        has_bit(f(Square::at(x)), i),
    decreases set,
{
    lemma_drop_lsb_decreases(set);
    lemma_lsb(set);
    let next = acc | f(Square::at(lsb(set)));
    lemma_set_bits(acc, f(Square::at(lsb(set))), i);
    if has_bit(next, i) {
        lsb(set)
    } else {
        let x = lemma_fold_or_some(drop_lsb(set), f, next, i);
        lemma_drop_lsb_bits(set, x);
        x
    }
}

} // verus!
