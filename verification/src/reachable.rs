//! What holds of every position that legal moves lead to from a valid
//! setup.

use vstd::prelude::*;
use crate::bitboard::{has_bit, BACKRANKS};
use crate::candidate_laws::{lemma_concat_iff, lemma_filter_iff, lemma_pin_iff};
use crate::color::Color;
use crate::laws::{
    at_most_one, kings_of, lemma_apart, lemma_en_passant, lemma_legal_moves, lemma_play_kings,
    lemma_play_pawns, lemma_play_well_formed, lemma_setup_well_formed, lemma_single,
    lemma_small_sets, pawns_of, pseudo_legal, well_formed,
};
use crate::magic::lemma_lines;
use crate::movegen::en_passant;
use crate::position::{
    chess_part, en_passant_fn, ep_after, standard_en_passant_moves, standard_moves, State,
};
use crate::rules::{
    antichess_moves, legal_moves_spec, play_spec, relevant_ep, setup_errors, setup_state,
    validation,
};
use crate::setup::SetupView;
use crate::square::Square;
use crate::types::{CastlingMode, CastlingSide, Move, Variant};

verus! {

/// True if the rook with which a color castles on the king side stands on
/// a higher file than its king, and the one of the queen side on a lower
/// file.
pub open spec fn sides_apart(s: State, color: Color) -> bool {
    match s.board.king_of(color) {
        Some(k) => {
            &&& (s.castles.rook_spec(color, CastlingSide::KingSide) matches Some(r) ==> 0
                <= r.idx() < 64 && k.idx() % 8 < r.idx() % 8)
            &&& (s.castles.rook_spec(color, CastlingSide::QueenSide) matches Some(r) ==> 0
                <= r.idx() < 64 && r.idx() % 8 < k.idx() % 8)
        },
        None => true,
    }
}

/// True if a position is sound: it is well formed, each side has one king
/// at most and its castling rooks on the sides of the king that they are
/// named after, unless pawns may become kings as in Antichess, no pawn
/// stands on the first or last rank, unless the position is one of Horde,
/// and an en passant square on which a pawn can be captured is empty and
/// on neither of these ranks.
pub open spec fn sound(s: State) -> bool {
    &&& well_formed(s)
    &&& (s.variant != Variant::Antichess ==> at_most_one(kings_of(s.board, Color::White))
        && at_most_one(kings_of(s.board, Color::Black)) && sides_apart(s, Color::White)
        && sides_apart(s, Color::Black))
    &&& (s.variant != Variant::Horde ==> pawns_of(s.board, Color::White) & BACKRANKS == 0
        && pawns_of(s.board, Color::Black) & BACKRANKS == 0)
    &&& (relevant_ep(s) matches Some(e) ==> 0 <= e.idx() < 64 && !has_bit(BACKRANKS, e.idx())
        && !has_bit(s.board.occupied(), e.idx()))
}

/// The en passant square of a position without the flag of an invalid en
/// passant square is on the third or on the sixth rank, if a pawn can be
/// captured there.
pub proof fn lemma_valid_ep(s: State)
    requires
        !validation(s).invalid_ep_square,
        relevant_ep(s) matches Some(e) ==> 0 <= e.idx() < 64,
    ensures
        relevant_ep(s) matches Some(e) ==> !has_bit(BACKRANKS, e.idx()) && !has_bit(
            s.board.occupied(),
            e.idx(),
        ),
{
    match relevant_ep(s) {
        Some(e) => {
            lemma_lines(e.idx(), 5);
            lemma_lines(e.idx(), 2);
            lemma_single(e.idx(), e.idx());
        },
        None => {},
    }
}

/// A setup without a flag, with a well formed board and an en passant
/// square on the board, gives a sound position.
pub proof fn lemma_setup_sound(variant: Variant, sv: SetupView, mode: Option<CastlingMode>)
    requires
        sv.board.wf(),
        sv.ep_square matches Some(e) ==> 0 <= e.idx() < 64,
        setup_errors(variant, sv, mode).is_empty_spec(),
    ensures
        sound(setup_state(variant, sv, mode)),
{
    let s = setup_state(variant, sv, mode);
    let t = chess_part(s);
    lemma_setup_well_formed(variant, sv, mode);
    lemma_apart(s.board.kings, s.board.white, 0);
    lemma_apart(s.board.kings, s.board.black, 0);
    lemma_apart(s.board.white, s.board.pawns, 0);
    lemma_apart(s.board.black, s.board.pawns, 0);
    lemma_small_sets(s.board.pawns, pawns_of(s.board, Color::White), BACKRANKS, 0);
    lemma_small_sets(s.board.pawns, pawns_of(s.board, Color::Black), BACKRANKS, 0);
    if variant == Variant::KingOfTheHill || variant == Variant::ThreeCheck || variant
        == Variant::Crazyhouse {
        assert(relevant_ep(s) == relevant_ep(t));
        lemma_valid_ep(t);
    } else {
        lemma_valid_ep(s);
    }
    lemma_setup_sides(variant, sv, mode, Color::White);
    lemma_setup_sides(variant, sv, mode, Color::Black);
}

/// The castling rooks that a setup gives stand on the sides of the king
/// that they are named after.
pub proof fn lemma_setup_sides(
    variant: Variant,
    sv: SetupView,
    mode: Option<CastlingMode>,
    color: Color,
)
    ensures
        sides_apart(setup_state(variant, sv, mode), color),
{
    broadcast use Square::lemma_idx_at;

    let back = CastlingSide::backrank_idx(color);
    let candidates = sv.castling_rights & sv.board.rooks & sv.board.by_color(color)
        & crate::bitboard::rank_bits(back);
    if candidates != 0 {
        crate::bitboard::lemma_lsb(candidates);
        vstd::std_specs::bits::axiom_u64_leading_zeros(candidates);
    }
}

/// After a move a side has the castling rights that it had before, or
/// fewer, and none if its king has moved.
pub proof fn lemma_rights_after(s: State, m: Move, color: Color, side: CastlingSide)
    requires
        play_spec(s, m).castles.rook_spec(color, side).is_some(),
    ensures
        play_spec(s, m).castles.rook_spec(color, side) == s.castles.rook_spec(color, side),
        color == s.turn ==> !(m is Castle) && !(m is Normal && m.role_spec()
            == crate::types::Role::King),
{
}

/// The castling rooks stay on the sides of the king that they are named
/// after.
pub proof fn lemma_play_sides(s: State, m: Move, color: Color)
    requires
        s.variant != Variant::Antichess,
        pseudo_legal(s, m),
        at_most_one(kings_of(s.board, color)),
        sides_apart(s, color),
    ensures
        sides_apart(play_spec(s, m), color),
{
    let after = play_spec(s, m);
    let piece = crate::types::Piece { color, role: crate::types::Role::King };
    let x = kings_of(s.board, color);
    let y = kings_of(after.board, color);
    if after.castles.rook_spec(color, CastlingSide::KingSide).is_some() {
        lemma_rights_after(s, m, color, CastlingSide::KingSide);
    }
    if after.castles.rook_spec(color, CastlingSide::QueenSide).is_some() {
        lemma_rights_after(s, m, color, CastlingSide::QueenSide);
    }
    if after.castles.rook_spec(color, CastlingSide::KingSide).is_some()
        || after.castles.rook_spec(color, CastlingSide::QueenSide).is_some() {
        crate::laws::lemma_play_fewer(s, m, piece);
        lemma_small_sets(x, y, 0, 0);
    }
}

/// A legal en passant capture goes to the en passant square, which is
/// then one on which a pawn can be captured.
pub proof fn lemma_legal_en_passant(s: State, m: Move)
    requires
        well_formed(s),
        legal_moves_spec(s).contains(m),
        m is EnPassant,
    ensures
        relevant_ep(s) == Some(m.to_spec()),
{
    let t = chess_part(s);
    lemma_legal_moves(s);
    let keep = en_passant_fn();
    match s.variant {
        Variant::Chess => {
            lemma_standard_en_passant(s, m);
        },
        Variant::KingOfTheHill => {
            lemma_standard_en_passant(t, m);
        },
        Variant::ThreeCheck => {
            lemma_standard_en_passant(t, m);
        },
        Variant::Crazyhouse => {
            crate::laws::lemma_drops(s);
            lemma_concat_iff(standard_moves(t), crate::rules::drops(s), m);
            lemma_standard_en_passant(t, m);
        },
        Variant::Antichess => {
            lemma_apart(s.board.white, s.board.black, 0);
            lemma_antichess_en_passant(s, m);
        },
        Variant::RacingKings => {
            assert(pseudo_legal(s, m));
            lemma_racing_no_en_passant(s, m);
        },
        _ => {
            lemma_filter_iff(legal_moves_spec(s), keep, m);
        },
    }
}

/// A legal en passant capture by the rules of standard chess is among the
/// legal en passant captures.
pub proof fn lemma_standard_en_passant(s: State, m: Move)
    requires
        well_formed(s),
        standard_moves(s).contains(m),
        m is EnPassant,
    ensures
        standard_en_passant_moves(s).contains(m),
        s.ep_square == Some(m.to_spec()),
{
    let ep = en_passant(s.board, s.turn, s.ep_square);
    lemma_en_passant(s.board, s.turn, s.ep_square);
    crate::candidate_laws::lemma_other_moves(s);
    let others = crate::candidate_laws::other_moves(s);
    lemma_pin_iff(s, ep + others, ep.len() > 0, m);
    lemma_concat_iff(ep, others, m);
    lemma_pin_iff(s, ep, true, m);
}

/// In Antichess a legal en passant capture is among the en passant
/// captures.
pub proof fn lemma_antichess_en_passant(s: State, m: Move)
    requires
        s.board.wf(),
        s.variant == Variant::Antichess,
        antichess_moves(s).contains(m),
        m is EnPassant,
    ensures
        en_passant(s.board, s.turn, s.ep_square).contains(m),
        en_passant(s.board, s.turn, s.ep_square).len() > 0,
        s.ep_square == Some(m.to_spec()),
{
    lemma_legal_moves_antichess(s, m);
    lemma_en_passant(s.board, s.turn, s.ep_square);
}

/// A move of Antichess that is an en passant capture comes from the en
/// passant captures.
proof fn lemma_legal_moves_antichess(s: State, m: Move)
    requires
        s.board.wf(),
        s.variant == Variant::Antichess,
        antichess_moves(s).contains(m),
        m is EnPassant,
    ensures
        en_passant(s.board, s.turn, s.ep_square).contains(m),
{
    let ep = en_passant(s.board, s.turn, s.ep_square);
    lemma_apart(s.board.white, s.board.black, 0);
    let target = if crate::rules::antichess_captures(s).len() > 0 {
        crate::position::them(s)
    } else {
        !s.board.occupied()
    };
    let with_ep = crate::rules::antichess_captures(s).len() > 0;
    let first = if with_ep {
        ep
    } else {
        Seq::empty()
    };
    let pieces = crate::movegen::non_king(s.board, s.turn, target);
    let base = first + pieces;
    let kings = base.filter(crate::rules::queen_promotion_fn()).map_values(
        crate::rules::king_promotion_fn(),
    );
    let moves = crate::movegen::piece_moves(
        s.board,
        crate::types::Piece { color: s.turn, role: crate::types::Role::King },
        target,
    );
    crate::laws::lemma_non_king(s, target);
    crate::laws::lemma_piece_moves(
        s.board,
        crate::types::Piece { color: s.turn, role: crate::types::Role::King },
        target,
    );
    lemma_concat_iff(base + kings, moves, m);
    lemma_concat_iff(base, kings, m);
    lemma_concat_iff(first, pieces, m);
    if kings.contains(m) {
        let k = choose|k: int| 0 <= k < kings.len() && kings[k] == m;
        let q = base.filter(crate::rules::queen_promotion_fn())[k];
        assert(kings[k] == crate::rules::as_king_promotion(q));
    }
}

/// Racing Kings has no en passant captures.
pub proof fn lemma_racing_no_en_passant(s: State, m: Move)
    requires
        well_formed(s),
        s.variant == Variant::RacingKings,
        legal_moves_spec(s).contains(m),
    ensures
        !(m is EnPassant),
{
    if !crate::rules::racing_end(s) {
        lemma_apart(crate::position::us(s), 0, 0);
        let free = !crate::position::us(s);
        crate::laws::lemma_non_king(s, free);
        crate::laws::lemma_safe_king_moves(s, free);
        let a = crate::movegen::non_king(s.board, s.turn, free);
        let b = crate::position::safe_king_moves(s, free);
        lemma_filter_iff(
            crate::position::pin_filtered(s, a + b, false),
            crate::rules::no_check_fn(s),
            m,
        );
        lemma_pin_iff(s, a + b, false, m);
        lemma_concat_iff(a, b, m);
    }
}

/// A legal move leads from a sound position to a sound position. So
/// every position that legal moves lead to from a sound position is sound:
/// its board is well formed, each side has one king at most (but in
/// Antichess), and no pawn stands on the first or last rank (but in
/// Horde).
pub proof fn lemma_play_sound(s: State, m: Move)
    requires
        sound(s),
        legal_moves_spec(s).contains(m),
    ensures
        sound(play_spec(s, m)),
{
    broadcast use Square::lemma_idx_at;

    let after = play_spec(s, m);
    lemma_legal_moves(s);
    lemma_play_well_formed(s, m);
    if s.variant != Variant::Antichess {
        lemma_play_kings(s, m, Color::White);
        lemma_play_kings(s, m, Color::Black);
        lemma_play_sides(s, m, Color::White);
        lemma_play_sides(s, m, Color::Black);
    }
    if m is EnPassant {
        lemma_legal_en_passant(s, m);
    }
    if s.variant != Variant::Horde {
        lemma_play_pawns(s, m, Color::White);
        lemma_play_pawns(s, m, Color::Black);
    }
    match relevant_ep(after) {
        Some(e) => {
            assert(after.ep_square == Some(e));
            assert(ep_after(m) == Some(e));
            lemma_single(e.idx(), e.idx());
            lemma_passed_square(s, m);
        },
        None => {},
    }
}

/// The square that a pawn passes with a double step is empty after the
/// move.
pub proof fn lemma_passed_square(s: State, m: Move)
    requires
        s.board.wf(),
        pseudo_legal(s, m),
        ep_after(m).is_some(),
    ensures
        ep_after(m) matches Some(e) && 0 <= e.idx() < 64 && !has_bit(
            play_spec(s, m).board.occupied(),
            e.idx(),
        ),
{
    broadcast use Square::lemma_idx_at;

    let e = ep_after(m).unwrap();
    let after = crate::position::do_move_spec(s, m);
    match m {
        Move::Normal { role, from, capture, to, promotion } => {
            if has_bit(crate::attacks::pawn_attacks_spec(s.turn, from.idx()), to.idx()) {
                crate::laws::lemma_pawn_attack(s.turn, from.idx(), to.idx());
            }
            let b1 = s.board.without(from.idx());
            crate::laws::lemma_patched_other(s.board, from.idx(), None, None, false, e.idx());
            crate::laws::lemma_patched_other(
                b1,
                to.idx(),
                Some(crate::position::role_after(role, promotion)),
                Some(s.turn),
                has_bit(s.board.promoted, from.idx()) || promotion.is_some(),
                e.idx(),
            );
            assert(!has_bit(after.board.occupied(), e.idx()));
            if s.variant == Variant::Atomic && capture.is_some() {
                let board = after.board.without(to.idx());
                let radius = crate::attacks::king_attacks_spec(to.idx()) & board.occupied()
                    & !board.pawns;
                if has_bit(play_spec(s, m).board.occupied(), e.idx()) {
                    crate::laws::lemma_emptied(board, radius, e.idx());
                    crate::laws::lemma_emptied(after.board, crate::bitboard::bit(to.idx()), e.idx());
                }
            }
        },
        _ => {},
    }
}

/// The position from which the games of a variant start.
pub open spec fn initial(variant: Variant) -> State {
    State {
        variant,
        board: match variant {
            Variant::RacingKings => crate::board::racing_kings_board(),
            Variant::Horde => crate::board::horde_board(),
            _ => crate::board::standard_board(),
        },
        turn: Color::White,
        castles: match variant {
            Variant::Antichess => crate::setup::Castles::none(CastlingMode::Standard),
            Variant::RacingKings => crate::setup::Castles::none(CastlingMode::Standard),
            Variant::Horde => crate::setup::Castles::standard().without_side(Color::White),
            _ => crate::setup::Castles::standard(),
        },
        ep_square: None,
        halfmoves: 0,
        fullmoves: 1,
        pockets: crate::position::no_pockets(),
        remaining_checks: crate::position::all_checks(),
    }
}

/// Facts about the sets of the starting boards.
proof fn lemma_initial_bits()
    by (bit_vector)
    ensures
        0xffffu64 & 0x1000_0000_0000_0010u64 == 0x10u64,
        0xffff_0000_0000_0000u64 & 0x1000_0000_0000_0010u64 == 0x1000_0000_0000_0000u64,
        0xffffu64 & 0x00ff_0000_0000_ff00u64 & 0xff00_0000_0000_00ffu64 == 0,
        0xffff_0000_0000_0000u64 & 0x00ff_0000_0000_ff00u64 & 0xff00_0000_0000_00ffu64 == 0,
        0xf0f0u64 & 0x8100u64 == 0x8000u64,
        0x0f0fu64 & 0x8100u64 == 0x0100u64,
        0xf0f0u64 & 0u64 & 0xff00_0000_0000_00ffu64 == 0,
        0x0f0fu64 & 0u64 & 0xff00_0000_0000_00ffu64 == 0,
        0x0000_0066_ffff_ffffu64 & 0x1000_0000_0000_0000u64 == 0,
        0xffff_0000_0000_0000u64 & 0x1000_0000_0000_0000u64 == 0x1000_0000_0000_0000u64,
        0x10u64 & ((0x10u64 - 1) as u64) == 0,
        0x1000_0000_0000_0000u64 & ((0x1000_0000_0000_0000u64 - 1) as u64) == 0,
        0x8000u64 & ((0x8000u64 - 1) as u64) == 0,
        0x0100u64 & ((0x0100u64 - 1) as u64) == 0,
        1u64 << 4 == 0x10u64,
        1u64 << 60 == 0x1000_0000_0000_0000u64,
{
}

/// The games of every variant start from a sound position.
pub proof fn lemma_initial_sound(variant: Variant)
    ensures
        sound(initial(variant)),
{
    broadcast use Square::lemma_idx_at;

    let s = initial(variant);
    crate::board::lemma_start_boards_wf();
    crate::laws::lemma_standard_castles();
    lemma_initial_bits();
    assert(Square::at(7).idx() == 7);
    assert(Square::at(0).idx() == 0);
    assert(Square::at(63).idx() == 63);
    assert(Square::at(56).idx() == 56);
    if variant != Variant::RacingKings {
        let white = kings_of(s.board, Color::White);
        let black = kings_of(s.board, Color::Black);
        if white != 0 {
            crate::bitboard::lemma_lsb(white);
            lemma_single(4, crate::bitboard::lsb(white));
        }
        crate::bitboard::lemma_lsb(black);
        lemma_single(60, crate::bitboard::lsb(black));
    }
}

} // verus!
