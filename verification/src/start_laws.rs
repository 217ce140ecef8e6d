//! Nothing is wrong with the starting positions of the variants.

use vstd::prelude::*;
use crate::bitboard::{bit, has_bit, lemma_has_bit_nonzero, lemma_lsb, lsb, msb};
use crate::color::Color;
use crate::laws::{kings_of, lemma_single};
use crate::position::{chess_part, State};
use crate::reachable::initial;
use crate::rules::{rights_errors, setup_errors, setup_of, setup_state, validation};
use crate::safety::king_safe;
use crate::setup::castling_rook;
use crate::square::Square;
use crate::threats::{lemma_msb, lemma_only_bit, threat};
use crate::types::{CastlingSide, Role, Variant};

verus! {

/// Facts about the sets of the starting boards.
proof fn lemma_start_sets(x: u64)
    by (bit_vector)
    requires
        x < 64,
    ensures
        ((1u64 << 7) | (1u64 << 0) | (1u64 << 63) | (1u64 << 56)) & 0x8100_0000_0000_0081u64
            & 0xffffu64 & (0xffu64 << 0) == 0x81,
        ((1u64 << 7) | (1u64 << 0) | (1u64 << 63) | (1u64 << 56)) & 0x8100_0000_0000_0081u64
            & 0xffff_0000_0000_0000u64 & (0xffu64 << 56) == 0x8100_0000_0000_0000u64,
        (0u64 | 0u64 | (1u64 << 63) | (1u64 << 56)) & 0x8100_0000_0000_0000u64
            & 0xffff_0000_0000_0000u64 & (0xffu64 << 56) == 0x8100_0000_0000_0000u64,
        (0x81u64 >> x) & 1 == 1 <==> x == 0 || x == 7,
        (0x8100_0000_0000_0000u64 >> x) & 1 == 1 <==> x == 56 || x == 63,
        0xffffu64 | 0xffff_0000_0000_0000u64 != 0,
        0x0000_0066_ffff_ffffu64 | 0xffff_0000_0000_0000u64 != 0,
        0xf0f0u64 | 0x0f0fu64 != 0,
        0x00ff_0000_0000_ff00u64 & 0xff00_0000_0000_00ffu64 == 0,
        0u64 & 0xff00_0000_0000_00ffu64 == 0,
        0x00ff_0066_ffff_ffffu64 & 0x0000_0066_ffff_ffffu64 & 0xff00_0000_0000_00ffu64 & !(0xffu64
            << 0) == 0,
        0x00ff_0066_ffff_ffffu64 & 0xffff_0000_0000_0000u64 & 0xff00_0000_0000_00ffu64 & !0u64
            == 0,
        0x1000_0000_0000_0000u64 & 0xffff_0000_0000_0000u64 != 0,
        0x1000_0000_0000_0000u64 & !0u64 != 0,
        0x1000_0000_0000_0000u64 & 0x0000_0066_ffff_ffffu64 == 0,
        0x1000_0000_0000_0010u64 & 0xffffu64 == 0xffffu64 & 0x1000_0000_0000_0010u64,
        0x1000_0000_0000_0010u64 & 0xffff_0000_0000_0000u64 == 0xffff_0000_0000_0000u64
            & 0x1000_0000_0000_0010u64,
        0x1000_0000_0000_0000u64 & 0xffff_0000_0000_0000u64 == 0xffff_0000_0000_0000u64
            & 0x1000_0000_0000_0000u64,
        0x8100u64 & 0xf0f0u64 == 0xf0f0u64 & 0x8100u64,
        0x8100u64 & 0x0f0fu64 == 0x0f0fu64 & 0x8100u64,
        0xffffu64 & 0x1000_0000_0000_0010u64 == 1u64 << 4,
        (0xffff_0000_0000_0000u64 >> x) & 1 == 1 ==> x >= 48,
        x == 11 || x == 12 || x == 13 ==> ((0xffffu64 | 0xffff_0000_0000_0000u64) >> x) & 1 == 1,
{
}

/// On the starting board of standard chess the white king stands on e1,
/// and no black piece attacks it.
pub proof fn lemma_start_white_safe()
    ensures
        crate::board::standard_board().king_of(Color::White) == Some(Square::at(4)),
        king_safe(crate::board::standard_board(), Color::White),
{
    broadcast use Square::lemma_idx_at;

    let board = crate::board::standard_board();
    let occupied = board.occupied();
    crate::board::lemma_start_boards_wf();
    let white = kings_of(board, Color::White);
    lemma_start_sets(0);
    assert(white == bit(4));
    lemma_single(4, 4);
    assert forall|j: int| 0 <= j < 64 && has_bit(white, j) implies j == 4 by {
        lemma_single(4, j);
    }
    lemma_only_bit(white, 4);
    lemma_start_sets(11);
    lemma_start_sets(12);
    lemma_start_sets(13);
    assert forall|x: int| 0 <= x < 64 implies !threat(board, 4, Color::Black, occupied, x) by {
        if threat(board, 4, Color::Black, occupied, x) {
            lemma_start_sets(x as u64);
            assert(x >= 48);
            match board.role_at(x) {
                Some(Role::Pawn) => {
                    crate::laws::lemma_pawn_attack(Color::White, 4, x);
                },
                Some(Role::Knight) => {
                    crate::line_laws::lemma_knight_step(4, x);
                },
                Some(Role::King) => {
                    crate::line_laws::lemma_king_step(4, x);
                },
                _ => {
                    let along = has_bit(crate::attacks::rook_attacks_spec(4, occupied), x);
                    let w = crate::line_laws::lemma_line_some(along, 4, occupied, x);
                    crate::attack_laws::lemma_slide_one(4, occupied, w.delta, x);
                },
            }
        }
    }
    crate::threats::lemma_no_threat(board, 4, Color::Black, occupied);
}

/// The lowest and the highest square of the set of the two rooks of a
/// side on the starting board.
proof fn lemma_rook_pair(set: u64, low: int)
    requires
        (low == 0 && set == 0x81) || (low == 56 && set == 0x8100_0000_0000_0000u64),
    ensures
        lsb(set) == low,
        msb(set) == low + 7,
{
    lemma_start_sets(low as u64);
    lemma_start_sets((low + 7) as u64);
    assert(has_bit(set, low));
    assert(has_bit(set, low + 7));
    lemma_has_bit_nonzero(set, low);
    lemma_lsb(set);
    lemma_start_sets(lsb(set) as u64);
    lemma_msb(set);
    lemma_start_sets(msb(set) as u64);
}

/// The rooks with which a side castles in a setup in which its king
/// stands on the e-file of its back rank, and the rights name its two
/// rooks in the corners.
proof fn lemma_side_rooks(board: crate::board::BoardView, rights: u64, color: Color)
    requires
        board.king_of(color) == Some(Square::at(8 * CastlingSide::backrank_idx(color) + 4)),
        rights & board.rooks & board.by_color(color) & crate::bitboard::rank_bits(
            CastlingSide::backrank_idx(color),
        ) == (if color == Color::White {
            0x81u64
        } else {
            0x8100_0000_0000_0000u64
        }),
    ensures
        castling_rook(board, rights, color, CastlingSide::KingSide) == Some(
            Square::at(8 * CastlingSide::backrank_idx(color) + 7),
        ),
        castling_rook(board, rights, color, CastlingSide::QueenSide) == Some(
            Square::at(8 * CastlingSide::backrank_idx(color)),
        ),
{
    broadcast use Square::lemma_idx_at;

    if color == Color::White {
        lemma_rook_pair(0x81, 0);
    } else {
        lemma_rook_pair(0x8100_0000_0000_0000u64, 56);
    }
}

/// The castling rights of the starting position of standard chess and of
/// the variants that start from it, read as a setup, are the rights that
/// the position has.
proof fn lemma_standard_rights(variant: Variant)
    requires
        variant != Variant::Antichess,
        variant != Variant::RacingKings,
        variant != Variant::Horde,
    ensures
        rights_errors(variant, setup_of(initial(variant)), None)
            == crate::position::PositionErrorKind::none(),
{
    broadcast use Square::lemma_idx_at;

    let s = initial(variant);
    let board = crate::board::standard_board();
    let rights = crate::setup::Castles::standard().rights_spec();
    assert(setup_of(s).castling_rights == rights);
    assert(rights == (bit(7) | bit(0) | bit(63) | bit(56)));
    lemma_start_sets(0);
    crate::secure::lemma_start_safe(Variant::Chess);
    lemma_start_white_safe();
    lemma_side_rooks(board, rights, Color::White);
    lemma_side_rooks(board, rights, Color::Black);
}

/// The castling rights of the starting position of Horde, read as a
/// setup, are the rights that the position has.
proof fn lemma_horde_rights()
    ensures
        rights_errors(Variant::Horde, setup_of(initial(Variant::Horde)), None)
            == crate::position::PositionErrorKind::none(),
{
    broadcast use Square::lemma_idx_at;

    let s = initial(Variant::Horde);
    let board = crate::board::horde_board();
    let rights = crate::setup::Castles::standard().without_side(Color::White).rights_spec();
    assert(setup_of(s).castling_rights == rights);
    assert(rights == (0u64 | 0u64 | bit(63) | bit(56)));
    lemma_start_sets(0);
    crate::secure::lemma_start_safe(Variant::Horde);
    crate::secure::lemma_initial_kings(Variant::Horde);
    assert(board.king_of(Color::White).is_none());
    lemma_side_rooks(board, rights, Color::Black);
}

/// The castling rights of a starting position, read as a setup, are the
/// rights that it has.
pub proof fn lemma_start_rights(variant: Variant)
    ensures
        rights_errors(variant, setup_of(initial(variant)), None)
            == crate::position::PositionErrorKind::none(),
{
    if variant == Variant::Horde {
        lemma_horde_rights();
    } else if variant != Variant::Antichess && variant != Variant::RacingKings {
        lemma_standard_rights(variant);
    }
}

/// Nothing is wrong, by the rules that all variants share, with a
/// position on the starting board of standard chess in which white is to
/// move and no en passant square is set.
proof fn lemma_standard_valid(s: State)
    requires
        s.board == crate::board::standard_board(),
        s.turn == Color::White,
        s.ep_square.is_none(),
    ensures
        validation(s) == crate::position::PositionErrorKind::none(),
{
    broadcast use Square::lemma_idx_at;

    lemma_start_sets(0);
    crate::board::lemma_start_boards_wf();
    crate::secure::lemma_start_safe(Variant::Chess);
    crate::secure::lemma_initial_kings(Variant::Chess);
    lemma_start_white_safe();
    assert(initial(Variant::Chess).board == s.board);
    assert(s.board.kings & s.board.white == kings_of(s.board, Color::White));
    assert(s.board.kings & s.board.black == kings_of(s.board, Color::Black));
    assert(crate::position::checkers(s) == 0);
}

/// Nothing is wrong with the starting position of Racing Kings in which
/// white is to move.
proof fn lemma_racing_valid(s: State)
    requires
        s.board == crate::board::racing_kings_board(),
        s.turn == Color::White,
        s.ep_square.is_none(),
        s.variant == Variant::RacingKings,
    ensures
        validation(s) == crate::position::PositionErrorKind::none(),
        crate::position::checkers(s) == 0,
        s.board.pawns == 0,
{
    broadcast use Square::lemma_idx_at;

    lemma_start_sets(0);
    crate::board::lemma_start_boards_wf();
    crate::secure::lemma_racing_start_safe();
    assert(initial(Variant::RacingKings).board == s.board);
    assert(s.board.kings & s.board.white == kings_of(s.board, Color::White));
    assert(s.board.kings & s.board.black == kings_of(s.board, Color::Black));
    assert(crate::position::checkers(s) == 0);
}

/// What the rules that all variants share find in the starting position
/// of Horde: that white has no king, and nothing else.
proof fn lemma_horde_valid(s: State)
    requires
        s.board == crate::board::horde_board(),
        s.turn == Color::White,
        s.ep_square.is_none(),
        s.variant == Variant::Horde,
    ensures
        !validation(s).empty_board,
        !validation(s).too_many_kings,
        !validation(s).bad_castling_rights,
        !validation(s).invalid_ep_square,
        !validation(s).opposite_check,
        !validation(s).impossible_check,
        !validation(s).variant,
        crate::rules::horde_backrank_pawns(s.board, Color::White) == 0,
        crate::rules::horde_backrank_pawns(s.board, Color::Black) == 0,
        s.board.kings & !s.board.promoted != 0,
        s.board.kings & s.board.white == 0,
{
    broadcast use Square::lemma_idx_at;

    lemma_start_sets(0);
    crate::board::lemma_start_boards_wf();
    crate::secure::lemma_start_safe(Variant::Horde);
    crate::secure::lemma_initial_kings(Variant::Horde);
    assert(initial(Variant::Horde).board == s.board);
    assert(s.board.kings & s.board.black == kings_of(s.board, Color::Black));
    assert(s.board.king_of(Color::White).is_none()) by {
        assert(kings_of(s.board, Color::White) == 0);
    }
}

/// Nothing is wrong with the starting position of any variant: read as a
/// setup, it raises no flag.
pub proof fn lemma_initial_valid(variant: Variant)
    ensures
        setup_errors(variant, setup_of(initial(variant)), None).is_empty_spec(),
{
    let sv = setup_of(initial(variant));
    let s = setup_state(variant, sv, None);
    lemma_start_rights(variant);
    assert(sv.ep_square.is_none());
    match variant {
        Variant::RacingKings => {
            lemma_racing_valid(s);
        },
        Variant::Horde => {
            lemma_horde_valid(s);
        },
        Variant::Chess => {
            lemma_standard_valid(s);
        },
        Variant::Atomic => {
            lemma_standard_valid(s);
        },
        Variant::Antichess => {
            lemma_standard_valid(s);
        },
        Variant::KingOfTheHill => {
            lemma_standard_valid(chess_part(s));
        },
        Variant::ThreeCheck => {
            lemma_standard_valid(chess_part(s));
        },
        Variant::Crazyhouse => {
            lemma_standard_valid(chess_part(s));
            crate::bitboard::lemma_count_bound(s.board.occupied());
        },
    }
}

} // verus!
