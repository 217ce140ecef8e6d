//! The rules of the variants, stated over what a position holds.

use vstd::prelude::*;
use crate::attacks::{aligned_spec, between_spec, king_attacks_spec};
use crate::bitboard::{count_spec, drop_lsb, has_bit, lsb, msb, rank_bits, relative_rank_bits, Bitboard, BACKRANKS, CENTER, DARK_SQUARES, LIGHT_SQUARES};
use crate::board::BoardView;
use crate::color::Color;
use crate::material::MaterialSide;
use crate::movegen::{en_passant, for_each, king_attackers_spec, non_king, piece_moves};
use crate::position::{all_checks, both_castlings, capture_fn, castling_fn, checkers, chess_part, do_move_spec, en_passant_fn, king, no_pockets, pin_filtered, promotion_fn, safe_king_moves, san_candidate_fn, standard_castling_moves, standard_en_passant_moves, standard_moves, standard_promotion_moves, standard_san_candidates, them, us, Outcome, PositionErrorKind, State};
use crate::setup::{castles_from_setup, Castles, SetupView};
use crate::square::Square;
use crate::types::{CastlingMode, CastlingSide, Move, Piece, Role, Variant};

verus! {

/// The position after a move of Atomic chess: a capture removes the
/// capturing piece and every piece but pawns on the squares around it. The
/// side whose king is removed loses its castling rights, and so does every
/// rook that is removed.
pub open spec fn atomic_play(s: State, m: Move) -> State {
    let after = do_move_spec(s, m);
    let destination = match m {
        Move::Normal { capture: Some(_), to, .. } => Some(to),
        Move::EnPassant { to, .. } => Some(to),
        _ => None,
    };
    match destination {
        Some(to) => {
            let board = after.board.without(to.idx());
            let radius = king_attacks_spec(to.idx()) & board.occupied() & !board.pawns;
            let castles = if radius & board.kings & board.by_color(after.turn) != 0 {
                after.castles.without_side(after.turn)
            } else {
                after.castles
            };
            State {
                board: board.patched(radius, None, None, false),
                castles: castles.without_rooks(radius),
                ..after
            }
        },
        None => after,
    }
}

/// The moves of Atomic chess before the test for the kings: en passant
/// captures, moves of the pieces, king moves to empty squares, castling.
pub open spec fn atomic_pseudo(s: State) -> Seq<Move> {
    en_passant(s.board, s.turn, s.ep_square) + non_king(s.board, s.turn, !us(s)) + piece_moves(
        s.board,
        Piece { color: s.turn, role: Role::King },
        !s.board.occupied(),
    ) + both_castlings(s)
}

/// True if, after the move, the side that moved still has its king, and
/// either the other king is gone or its own king is not attacked.
pub open spec fn atomic_keeps(s: State, m: Move) -> bool {
    let after = atomic_play(s, m);
    match after.board.king_of(s.turn) {
        Some(k) => after.board.kings & after.board.by_color(s.turn.other_spec()) == 0
            || king_attackers_spec(
            Variant::Atomic,
            after.board,
            k.idx(),
            s.turn.other_spec(),
            after.board.occupied(),
        ) == 0,
        None => false,
    }
}

pub open spec fn atomic_keep_fn(s: State) -> spec_fn(Move) -> bool {
    |m: Move| atomic_keeps(s, m)
}

/// The legal moves of Atomic chess.
pub open spec fn atomic_moves(s: State) -> Seq<Move> {
    atomic_pseudo(s).filter(atomic_keep_fn(s))
}

pub open spec fn is_queen_promotion(m: Move) -> bool {
    m matches Move::Normal { promotion: Some(Role::Queen), .. }
}

pub open spec fn queen_promotion_fn() -> spec_fn(Move) -> bool {
    |m: Move| is_queen_promotion(m)
}

/// The same move, as a promotion to a king.
pub open spec fn as_king_promotion(m: Move) -> Move {
    match m {
        Move::Normal { role, from, capture, to, .. } => Move::Normal {
            role,
            from,
            capture,
            to,
            promotion: Some(Role::King),
        },
        _ => m,
    }
}

pub open spec fn king_promotion_fn() -> spec_fn(Move) -> Move {
    |m: Move| as_king_promotion(m)
}

/// The moves, followed by a promotion to a king for each promotion to a
/// queen among them.
pub open spec fn with_king_promotions(moves: Seq<Move>) -> Seq<Move> {
    moves + moves.filter(queen_promotion_fn()).map_values(king_promotion_fn())
}

/// The moves of Antichess to the squares of `target`, with the en passant
/// captures first if `ep` is set.
pub open spec fn antichess_gen(s: State, target: u64, ep: bool) -> Seq<Move> {
    with_king_promotions(
        (if ep {
            en_passant(s.board, s.turn, s.ep_square)
        } else {
            Seq::empty()
        }) + non_king(s.board, s.turn, target),
    ) + piece_moves(s.board, Piece { color: s.turn, role: Role::King }, target)
}

/// The captures of Antichess.
pub open spec fn antichess_captures(s: State) -> Seq<Move> {
    antichess_gen(s, them(s), true)
}

/// The legal moves of Antichess: the captures if there are any, and the
/// moves to empty squares otherwise.
pub open spec fn antichess_moves(s: State) -> Seq<Move> {
    if antichess_captures(s).len() > 0 {
        antichess_captures(s)
    } else {
        antichess_gen(s, !s.board.occupied(), false)
    }
}

/// True if a king stands on one of the four central squares.
pub open spec fn hill_end(s: State) -> bool {
    s.board.kings & CENTER != 0
}

/// True if one side has given its three checks.
pub open spec fn checks_end(s: State) -> bool {
    s.remaining_checks.white == 0 || s.remaining_checks.black == 0
}

/// The position after a move of Three-Check: a move that gives check
/// leaves the side that made it with one check less to give.
pub open spec fn three_check_play(s: State, m: Move) -> State {
    let after = do_move_spec(s, m);
    if checkers(after) != 0 {
        State { remaining_checks: s.remaining_checks.decrement_spec(s.turn), ..after }
    } else {
        after
    }
}

/// One more, but not more than an 8 bit number holds.
pub open spec fn pocket_succ(n: u8) -> u8 {
    if n == u8::MAX {
        n
    } else {
        (n + 1) as u8
    }
}

/// One less, but not less than none.
pub open spec fn pocket_pred(n: u8) -> u8 {
    if n == 0 {
        n
    } else {
        (n - 1) as u8
    }
}

/// The pocket of the side that moves, after a move of Crazyhouse: a
/// captured piece comes in, as a pawn if it came from a promotion, and a
/// dropped piece goes out.
pub open spec fn pocket_after(s: State, m: Move) -> MaterialSide {
    let pocket = s.pockets.by_color_spec(s.turn);
    match m {
        Move::Normal { capture: Some(capture), to, .. } => {
            let role = if has_bit(s.board.promoted, to.idx()) {
                Role::Pawn
            } else {
                capture
            };
            pocket.with_role(role, pocket_succ(pocket.by_role_spec(role)))
        },
        Move::EnPassant { .. } => pocket.with_role(Role::Pawn, pocket_succ(pocket.pawns)),
        Move::Put { role, .. } => pocket.with_role(role, pocket_pred(pocket.by_role_spec(role))),
        _ => pocket,
    }
}

/// The position after a move of Crazyhouse.
pub open spec fn crazyhouse_play(s: State, m: Move) -> State {
    State { pockets: s.pockets.with_side(s.turn, pocket_after(s, m)), ..do_move_spec(s, m) }
}

/// The squares on which a piece may be dropped: every empty square
/// without check, the empty squares between the king and a single piece
/// that gives check, and none in a double check.
pub open spec fn put_squares(s: State) -> u64 {
    let c = checkers(chess_part(s));
    let checker = Square::at(lsb(c));
    if c == 0 {
        !s.board.occupied()
    } else if drop_lsb(c) == 0 {
        match king(s) {
            Some(k) => between_spec(checker.idx(), k.idx()) & !s.board.occupied(),
            None => 0,
        }
    } else {
        0
    }
}

/// The drop of a piece of `role` on `to`, if the pocket holds one.
pub open spec fn piece_drop(pocket: MaterialSide, role: Role, to: Square) -> Seq<Move> {
    if pocket.by_role_spec(role) > 0 {
        seq![Move::Put { role, to }]
    } else {
        Seq::empty()
    }
}

pub open spec fn each_drop_square(pocket: MaterialSide) -> spec_fn(Square) -> Seq<Move> {
    |to: Square|
        piece_drop(pocket, Role::Knight, to) + piece_drop(pocket, Role::Bishop, to) + piece_drop(
            pocket,
            Role::Rook,
            to,
        ) + piece_drop(pocket, Role::Queen, to)
}

pub open spec fn each_pawn_drop() -> spec_fn(Square) -> Seq<Move> {
    |to: Square| seq![Move::Put { role: Role::Pawn, to }]
}

/// The drops of Crazyhouse: knights, bishops, rooks and queens square by
/// square, then the pawns, which are not dropped on the first and last
/// rank.
pub open spec fn drops(s: State) -> Seq<Move> {
    let pocket = s.pockets.by_color_spec(s.turn);
    for_each(put_squares(s), each_drop_square(pocket)) + (if pocket.pawns > 0 {
        for_each(put_squares(s) & !BACKRANKS, each_pawn_drop())
    } else {
        Seq::empty()
    })
}

/// The drop of a piece of `role` on `to`, if it is legal.
pub open spec fn drop_candidate(s: State, role: Role, to: Square) -> Seq<Move> {
    if s.pockets.by_color_spec(s.turn).by_role_spec(role) > 0 && has_bit(put_squares(s), to.idx())
        && (role != Role::Pawn || !has_bit(BACKRANKS, to.idx())) {
        seq![Move::Put { role, to }]
    } else {
        Seq::empty()
    }
}

/// The kings on the eighth rank.
pub open spec fn in_goal(s: State) -> u64 {
    s.board.kings & rank_bits(7)
}

/// The squares of the eighth rank that the king on `king` could step to,
/// as far as its own pieces go.
pub open spec fn goal_steps(s: State, black_king: Square) -> u64 {
    king_attacks_spec(black_king.idx()) & rank_bits(7) & !s.board.black
}

/// True if a game of Racing Kings is over: a king stands on the eighth
/// rank, and white is to move, or the black king stands there too, or the
/// black king cannot step to a square of that rank that white does not
/// attack.
pub open spec fn racing_end(s: State) -> bool {
    if in_goal(s) == 0 {
        false
    } else if s.turn == Color::White || in_goal(s) & s.board.black != 0 {
        true
    } else {
        match s.board.king_of(Color::Black) {
            Some(black_king) => !(exists|i: int|
                has_bit(goal_steps(s, black_king), i) && #[trigger] king_attackers_spec(
                    s.variant,
                    s.board,
                    i,
                    Color::White,
                    s.board.occupied(),
                ) == 0),
            None => true,
        }
    }
}

/// The position after a move of Racing Kings, which has no en passant
/// square.
pub open spec fn racing_play(s: State, m: Move) -> State {
    State { ep_square: None, ..do_move_spec(s, m) }
}

pub open spec fn no_check_fn(s: State) -> spec_fn(Move) -> bool {
    |m: Move| checkers(racing_play(s, m)) == 0
}

/// The legal moves of Racing Kings: the moves of the pieces and of the
/// king to safe squares that do not expose the king and do not give check.
pub open spec fn racing_moves(s: State) -> Seq<Move> {
    if racing_end(s) {
        Seq::empty()
    } else {
        pin_filtered(
            s,
            non_king(s.board, s.turn, !us(s)) + safe_king_moves(s, !us(s)),
            false,
        ).filter(no_check_fn(s))
    }
}

/// The position after a move.
pub open spec fn play_spec(s: State, m: Move) -> State {
    match s.variant {
        Variant::Atomic => atomic_play(s, m),
        Variant::ThreeCheck => three_check_play(s, m),
        Variant::Crazyhouse => crazyhouse_play(s, m),
        Variant::RacingKings => racing_play(s, m),
        _ => do_move_spec(s, m),
    }
}

/// True if the game is over by a rule of the variant.
pub open spec fn is_variant_end_spec(s: State) -> bool {
    match s.variant {
        Variant::Chess => false,
        Variant::Atomic => variant_outcome_spec(s).is_some(),
        Variant::Antichess => s.board.white == 0 || s.board.black == 0,
        Variant::KingOfTheHill => hill_end(s),
        Variant::ThreeCheck => checks_end(s),
        Variant::Crazyhouse => false,
        Variant::RacingKings => racing_end(s),
        Variant::Horde => s.board.white == 0 || s.board.black == 0,
    }
}

/// The legal moves.
pub open spec fn legal_moves_spec(s: State) -> Seq<Move> {
    match s.variant {
        Variant::Chess => standard_moves(s),
        Variant::Atomic => atomic_moves(s),
        Variant::Antichess => antichess_moves(s),
        Variant::KingOfTheHill => if hill_end(s) {
            Seq::empty()
        } else {
            standard_moves(chess_part(s))
        },
        Variant::ThreeCheck => if checks_end(s) {
            Seq::empty()
        } else {
            standard_moves(chess_part(s))
        },
        Variant::Crazyhouse => standard_moves(chess_part(s)) + drops(s),
        Variant::RacingKings => racing_moves(s),
        Variant::Horde => standard_moves(s),
    }
}

/// The legal moves of a piece of `role` to `to`, drops included and
/// castling excepted.
pub open spec fn san_candidates_spec(s: State, role: Role, to: Square) -> Seq<Move> {
    match s.variant {
        Variant::Chess => standard_san_candidates(s, role, to),
        Variant::KingOfTheHill => if hill_end(s) {
            Seq::empty()
        } else {
            standard_san_candidates(chess_part(s), role, to)
        },
        Variant::ThreeCheck => if checks_end(s) {
            Seq::empty()
        } else {
            standard_san_candidates(chess_part(s), role, to)
        },
        Variant::Crazyhouse => standard_san_candidates(chess_part(s), role, to) + drop_candidate(
            s,
            role,
            to,
        ),
        _ => legal_moves_spec(s).filter(san_candidate_fn(role, to)),
    }
}

/// The legal castling moves on `side`.
pub open spec fn castling_moves_spec(s: State, side: CastlingSide) -> Seq<Move> {
    match s.variant {
        Variant::Chess => standard_castling_moves(s, side),
        Variant::KingOfTheHill => if hill_end(s) {
            Seq::empty()
        } else {
            standard_castling_moves(chess_part(s), side)
        },
        Variant::ThreeCheck => if checks_end(s) {
            Seq::empty()
        } else {
            standard_castling_moves(chess_part(s), side)
        },
        Variant::Crazyhouse => standard_castling_moves(chess_part(s), side),
        _ => legal_moves_spec(s).filter(castling_fn(side)),
    }
}

/// The legal en passant captures.
pub open spec fn en_passant_moves_spec(s: State) -> Seq<Move> {
    match s.variant {
        Variant::Chess => standard_en_passant_moves(s),
        Variant::KingOfTheHill => if hill_end(s) {
            Seq::empty()
        } else {
            standard_en_passant_moves(chess_part(s))
        },
        Variant::ThreeCheck => if checks_end(s) {
            Seq::empty()
        } else {
            standard_en_passant_moves(chess_part(s))
        },
        Variant::Crazyhouse => standard_en_passant_moves(chess_part(s)),
        Variant::Antichess => en_passant(s.board, s.turn, s.ep_square),
        _ => legal_moves_spec(s).filter(en_passant_fn()),
    }
}

/// The legal captures.
pub open spec fn capture_moves_spec(s: State) -> Seq<Move> {
    match s.variant {
        Variant::Antichess => antichess_captures(s),
        _ => legal_moves_spec(s).filter(capture_fn()),
    }
}

/// The legal promotions.
pub open spec fn promotion_moves_spec(s: State) -> Seq<Move> {
    match s.variant {
        Variant::Chess => standard_promotion_moves(s),
        _ => legal_moves_spec(s).filter(promotion_fn()),
    }
}

/// The en passant square, if it is set and `captures` is not empty.
pub open spec fn ep_if_any(ep_square: Option<Square>, captures: Seq<Move>) -> Option<Square> {
    if ep_square.is_some() && captures.len() > 0 {
        ep_square
    } else {
        None
    }
}

/// The en passant square, if there is a legal en passant capture. The
/// variants that play standard chess with an addition go by the rules of
/// standard chess here, and Racing Kings has no such square.
pub open spec fn relevant_ep(s: State) -> Option<Square> {
    match s.variant {
        Variant::RacingKings => None,
        Variant::KingOfTheHill => ep_if_any(
            s.ep_square,
            standard_en_passant_moves(chess_part(s)),
        ),
        Variant::ThreeCheck => ep_if_any(s.ep_square, standard_en_passant_moves(chess_part(s))),
        Variant::Crazyhouse => ep_if_any(s.ep_square, standard_en_passant_moves(chess_part(s))),
        _ => ep_if_any(s.ep_square, en_passant_moves_spec(s)),
    }
}

/// The castling rights as a setup shows them: none in Antichess and
/// Racing Kings.
pub open spec fn shown_rights(s: State) -> u64 {
    match s.variant {
        Variant::Antichess => 0,
        Variant::RacingKings => 0,
        _ => s.castles.rights_spec(),
    }
}

/// A position, seen as a setup.
pub open spec fn setup_of(s: State) -> SetupView {
    SetupView {
        board: s.board,
        turn: s.turn,
        castling_rights: shown_rights(s),
        ep_square: relevant_ep(s),
        pockets: if s.variant == Variant::Crazyhouse {
            Some(s.pockets)
        } else {
            None
        },
        remaining_checks: if s.variant == Variant::ThreeCheck {
            Some(s.remaining_checks)
        } else {
            None
        },
        halfmoves: s.halfmoves,
        fullmoves: s.fullmoves,
    }
}

/// True if an en passant square does not fit the position: it is not on
/// the sixth rank of the side to move, or no pawn of the other side stands
/// before it, or the square itself or the one behind it is taken.
pub open spec fn bad_ep(s: State, e: Square) -> bool {
    !has_bit(relative_rank_bits(s.turn, 5), e.idx()) || (match (
        e.offset_spec(crate::movegen::back(s.turn, 8)),
        e.offset_spec(-crate::movegen::back(s.turn, 8)),
    ) {
        (Some(fifth), Some(seventh)) => !has_bit(them(s) & s.board.pawns, fifth.idx()) || has_bit(
            s.board.occupied(),
            e.idx(),
        ) || has_bit(s.board.occupied(), seventh.idx()),
        _ => true,
    })
}

/// True if the side to move is in a check that no move can have given:
/// by more than two pieces, or by two that stand on one line with the
/// king.
pub open spec fn impossible_check(s: State) -> bool {
    let c = checkers(s);
    match king(s) {
        Some(k) => c != 0 && Square::at(lsb(c)) != Square::at(msb(c)) && (count_spec(c) > 2
            || aligned_spec(Square::at(lsb(c)).idx(), Square::at(msb(c)).idx(), k.idx())),
        None => false,
    }
}

/// What is wrong with a position, by the rules that all variants share.
/// The en passant square is tested as it is set, whether or not a pawn
/// can capture on it.
pub open spec fn validation(s: State) -> PositionErrorKind {
    PositionErrorKind {
        empty_board: s.board.occupied() == 0,
        missing_king: s.board.king_of(Color::White).is_none() || s.board.king_of(
            Color::Black,
        ).is_none(),
        too_many_kings: Bitboard(s.board.kings & s.board.white).more_than_one_spec() || Bitboard(
            s.board.kings & s.board.black,
        ).more_than_one_spec(),
        pawns_on_backrank: s.board.pawns & BACKRANKS != 0,
        bad_castling_rights: false,
        invalid_ep_square: match s.ep_square {
            Some(e) => bad_ep(s, e),
            None => false,
        },
        opposite_check: match s.board.king_of(s.turn.other_spec()) {
            Some(k) => king_attackers_spec(s.variant, s.board, k.idx(), s.turn, s.board.occupied())
                != 0,
            None => false,
        },
        impossible_check: impossible_check(s),
        variant: false,
    }
}

/// The number of the move in a setup, which is at least 1.
pub open spec fn setup_fullmoves(sv: SetupView) -> u32 {
    if sv.fullmoves == 0 {
        1
    } else {
        sv.fullmoves
    }
}

/// The castling rights that a position of a variant takes from a setup:
/// none in Antichess and Racing Kings.
pub open spec fn setup_castles(variant: Variant, sv: SetupView, mode: Option<CastlingMode>) -> Castles {
    match variant {
        Variant::Antichess => Castles::none(
            match mode {
                Some(m) => m,
                None => CastlingMode::Standard,
            },
        ),
        Variant::RacingKings => Castles::none(
            match mode {
                Some(m) => m,
                None => CastlingMode::Standard,
            },
        ),
        _ => castles_from_setup(sv.board, sv.castling_rights, mode),
    }
}

/// The position of a variant that a setup describes, valid or not.
pub open spec fn setup_state(variant: Variant, sv: SetupView, mode: Option<CastlingMode>) -> State {
    State {
        variant,
        board: sv.board,
        turn: sv.turn,
        castles: setup_castles(variant, sv, mode),
        ep_square: if variant == Variant::RacingKings {
            None
        } else {
            sv.ep_square
        },
        halfmoves: sv.halfmoves,
        fullmoves: setup_fullmoves(sv),
        pockets: match sv.pockets {
            Some(p) if variant == Variant::Crazyhouse => p,
            _ => no_pockets(),
        },
        remaining_checks: match sv.remaining_checks {
            Some(c) if variant == Variant::ThreeCheck => c,
            _ => all_checks(),
        },
    }
}

/// The pawns of `color` on the first and last rank that Horde does not
/// put up with: all of them, but for those on the first rank of a side
/// without a king, which is the horde.
pub open spec fn horde_backrank_pawns(board: BoardView, color: Color) -> u64 {
    let own = if board.kings & board.by_color(color) == 0 {
        rank_bits(CastlingSide::backrank_idx(color))
    } else {
        0
    };
    board.pawns & board.by_color(color) & BACKRANKS & !own
}

/// The flag of bad castling rights alone, if `set`.
pub open spec fn bad_rights(set: bool) -> PositionErrorKind {
    PositionErrorKind { bad_castling_rights: set, ..PositionErrorKind::none() }
}

/// What is wrong with the castling rights of a setup: in Antichess and
/// Racing Kings any right, and elsewhere a right without its king and
/// rook.
pub open spec fn rights_errors(variant: Variant, sv: SetupView, mode: Option<CastlingMode>) -> PositionErrorKind {
    match variant {
        Variant::Antichess => bad_rights(sv.castling_rights != 0),
        Variant::RacingKings => bad_rights(sv.castling_rights != 0),
        _ => bad_rights(
            castles_from_setup(sv.board, sv.castling_rights, mode).rights_spec()
                != sv.castling_rights,
        ),
    }
}

/// What is wrong with a setup as a position of a variant. Each variant
/// adds its own tests to the common ones and passes over some of them.
pub open spec fn setup_errors(variant: Variant, sv: SetupView, mode: Option<CastlingMode>) -> PositionErrorKind {
    let s = setup_state(variant, sv, mode);
    let chess = validation(chess_part(s));
    let common = validation(s);
    let rights = rights_errors(variant, sv, mode);
    match variant {
        Variant::Chess => rights.union_spec(common),
        Variant::KingOfTheHill => rights.union_spec(chess),
        Variant::ThreeCheck => PositionErrorKind {
            variant: s.remaining_checks.white == 0 && s.remaining_checks.black == 0,
            ..rights.union_spec(chess)
        },
        Variant::Crazyhouse => {
            let crowded = s.pockets.count_spec() + count_spec(s.board.occupied()) > 64;
            let e = rights.union_spec(chess);
            PositionErrorKind {
                variant: crowded,
                too_many_kings: e.too_many_kings || (!crowded && (s.pockets.white.kings > 0
                    || s.pockets.black.kings > 0)),
                ..e
            }
        },
        Variant::Atomic => {
            let e = common.union_spec(rights);
            PositionErrorKind {
                missing_king: e.missing_king && them(s) & s.board.kings == 0,
                impossible_check: false,
                ..e
            }
        },
        Variant::Antichess => PositionErrorKind {
            missing_king: false,
            too_many_kings: false,
            opposite_check: false,
            impossible_check: false,
            ..common.union_spec(rights)
        },
        Variant::RacingKings => common.union_spec(
            PositionErrorKind {
                variant: s.board.pawns != 0 || (s.turn == Color::Black && s.board.white
                    & s.board.kings & rank_bits(7) != 0 && s.board.black & s.board.kings
                    & rank_bits(7) != 0),
                invalid_ep_square: sv.ep_square.is_some(),
                impossible_check: checkers(s) != 0,
                ..rights
            },
        ),
        Variant::Horde => {
            let e = rights.union_spec(common);
            PositionErrorKind {
                pawns_on_backrank: horde_backrank_pawns(s.board, Color::White) != 0
                    || horde_backrank_pawns(s.board, Color::Black) != 0,
                missing_king: s.board.kings & !s.board.promoted == 0,
                variant: s.board.kings & s.board.white != 0 && s.board.kings & s.board.black != 0,
                ..e
            }
        },
    }
}

/// True if a move can never be taken back: by the common rule, a pawn
/// move, a capture, castling, a drop, a move that gives up a castling
/// right, and any move where an en passant capture is legal.
pub open spec fn common_irreversible(s: State, m: Move) -> bool {
    (match m {
        Move::Normal { role, from, capture, to, .. } => role == Role::Pawn || capture.is_some()
            || has_bit(shown_rights(s), from.idx()) || has_bit(shown_rights(s), to.idx()) || (role
            == Role::King && s.castles.has_side_spec(s.turn)),
        _ => true,
    }) || relevant_ep(s).is_some()
}

/// True if a move can never be taken back.
pub open spec fn is_irreversible_spec(s: State, m: Move) -> bool {
    match s.variant {
        Variant::ThreeCheck => common_irreversible(chess_part(s), m) || checkers(
            do_move_spec(chess_part(s), m),
        ) != 0,
        Variant::Crazyhouse => match m {
            Move::Castle { .. } => true,
            Move::Normal { role, from, to, .. } => has_bit(shown_rights(s), from.idx()) || has_bit(
                shown_rights(s),
                to.idx(),
            ) || (role == Role::King && s.castles.has_side_spec(s.turn)),
            _ => false,
        },
        _ => common_irreversible(s, m),
    }
}

/// True if `color` cannot win by the material alone, in standard chess.
pub open spec fn chess_insufficient(board: BoardView, color: Color) -> bool {
    let ours = board.by_color(color);
    if ours & (board.pawns | (board.rooks | board.queens)) != 0 {
        false
    } else if ours & board.knights != 0 {
        count_spec(ours) <= 2 && board.by_color(color.other_spec()) & !board.kings & !board.queens
            == 0
    } else if ours & board.bishops != 0 {
        (board.bishops & DARK_SQUARES == 0 || board.bishops & LIGHT_SQUARES == 0) && board.knights
            == 0 && board.pawns == 0
    } else {
        true
    }
}

/// True if `color` cannot win by the material alone, in Atomic chess.
pub open spec fn atomic_insufficient(board: BoardView, color: Color) -> bool {
    let ours = board.by_color(color);
    let theirs = board.by_color(color.other_spec());
    if theirs & board.kings == 0 {
        false
    } else if ours & !board.kings == 0 {
        true
    } else if theirs & !board.kings != 0 {
        if board.occupied() == board.kings | board.bishops {
            if board.bishops & board.white & DARK_SQUARES == 0 {
                board.bishops & board.black & LIGHT_SQUARES == 0
            } else if board.bishops & board.white & LIGHT_SQUARES == 0 {
                board.bishops & board.black & DARK_SQUARES == 0
            } else {
                false
            }
        } else {
            false
        }
    } else if board.queens != 0 || board.pawns != 0 {
        false
    } else if count_spec(board.knights | board.bishops | board.rooks) == 1 {
        true
    } else if board.occupied() == board.kings | board.knights {
        count_spec(board.knights) <= 2
    } else {
        false
    }
}

/// True if `color` cannot win by the material alone, in Antichess: only
/// bishops are left, and those of `color` stand on squares of a color on
/// which the other side has none.
pub open spec fn antichess_insufficient(board: BoardView, color: Color) -> bool {
    let ours = board.by_color(color);
    let theirs = board.by_color(color.other_spec());
    if board.occupied() == board.bishops {
        (ours & LIGHT_SQUARES != 0 && theirs & LIGHT_SQUARES == 0) || (ours & DARK_SQUARES != 0
            && theirs & DARK_SQUARES == 0)
    } else {
        false
    }
}

/// True if nobody can win by the material alone, in Crazyhouse.
pub open spec fn crazyhouse_insufficient(s: State) -> bool {
    count_spec(s.board.occupied()) + s.pockets.count_spec() <= 3 && s.board.promoted == 0
        && s.board.pawns == 0 && s.board.rooks | s.board.queens == 0 && s.pockets.white.pawns == 0
        && s.pockets.black.pawns == 0 && s.pockets.white.rooks == 0 && s.pockets.black.rooks == 0
        && s.pockets.white.queens == 0 && s.pockets.black.queens == 0
}

/// True if `color` cannot win by the material alone.
pub open spec fn has_insufficient_material_spec(s: State, color: Color) -> bool {
    match s.variant {
        Variant::Chess => chess_insufficient(s.board, color),
        Variant::Atomic => atomic_insufficient(s.board, color),
        Variant::Antichess => antichess_insufficient(s.board, color),
        Variant::KingOfTheHill => false,
        Variant::ThreeCheck => s.board.by_color(color) & !s.board.kings == 0,
        Variant::Crazyhouse => crazyhouse_insufficient(s),
        Variant::RacingKings => false,
        Variant::Horde => false,
    }
}

/// True if neither side can win by the material alone.
pub open spec fn is_insufficient_material_spec(s: State) -> bool {
    has_insufficient_material_spec(s, Color::White) && has_insufficient_material_spec(
        s,
        Color::Black,
    )
}

/// True if the side to move is in check and has no legal move.
pub open spec fn is_checkmate_spec(s: State) -> bool {
    checkers(s) != 0 && legal_moves_spec(s).len() == 0
}

/// True if the side to move is not in check and has no legal move, and the
/// game is not over by a rule of the variant.
pub open spec fn is_stalemate_spec(s: State) -> bool {
    checkers(s) == 0 && !is_variant_end_spec(s) && legal_moves_spec(s).len() == 0
}

/// True if there is no legal move or neither side can win.
pub open spec fn is_game_over_spec(s: State) -> bool {
    legal_moves_spec(s).len() == 0 || is_insufficient_material_spec(s)
}

/// The winner by the first of two colors that meets a condition.
pub open spec fn first_of(white: bool, black: bool, white_wins: bool) -> Option<Outcome> {
    if white {
        Some(
            Outcome::Decisive {
                winner: if white_wins {
                    Color::White
                } else {
                    Color::Black
                },
            },
        )
    } else if black {
        Some(
            Outcome::Decisive {
                winner: if white_wins {
                    Color::Black
                } else {
                    Color::White
                },
            },
        )
    } else {
        None
    }
}

/// The result of the game by the rules of the variant, if these decide
/// it.
pub open spec fn variant_outcome_spec(s: State) -> Option<Outcome> {
    match s.variant {
        Variant::Chess => None,
        Variant::Crazyhouse => None,
        Variant::Atomic => first_of(
            s.board.white & s.board.kings == 0,
            s.board.black & s.board.kings == 0,
            false,
        ),
        Variant::Antichess => if us(s) == 0 || (checkers(s) == 0 && !(s.board.white == 0
            || s.board.black == 0) && antichess_moves(s).len() == 0) {
            Some(Outcome::Decisive { winner: s.turn })
        } else {
            None
        },
        Variant::KingOfTheHill => first_of(
            s.board.white & s.board.kings & CENTER != 0,
            s.board.black & s.board.kings & CENTER != 0,
            true,
        ),
        Variant::ThreeCheck => if s.remaining_checks.white == 0 && s.remaining_checks.black == 0 {
            Some(Outcome::Draw)
        } else if s.remaining_checks.white == 0 {
            Some(Outcome::Decisive { winner: Color::White })
        } else if s.remaining_checks.black == 0 {
            Some(Outcome::Decisive { winner: Color::Black })
        } else {
            None
        },
        Variant::RacingKings => if racing_end(s) {
            if in_goal(s) & s.board.white != 0 && in_goal(s) & s.board.black != 0 {
                Some(Outcome::Draw)
            } else if in_goal(s) & s.board.white != 0 {
                Some(Outcome::Decisive { winner: Color::White })
            } else {
                Some(Outcome::Decisive { winner: Color::Black })
            }
        } else {
            None
        },
        Variant::Horde => if s.board.occupied() == 0 {
            Some(Outcome::Draw)
        } else if s.board.white == 0 {
            Some(Outcome::Decisive { winner: Color::Black })
        } else if s.board.black == 0 {
            Some(Outcome::Decisive { winner: Color::White })
        } else {
            None
        },
    }
}

/// The result of the game, if it is over: by the rules of the variant, by
/// checkmate, or a draw by stalemate or for want of material.
pub open spec fn outcome_spec(s: State) -> Option<Outcome> {
    match variant_outcome_spec(s) {
        Some(outcome) => Some(outcome),
        None => if is_checkmate_spec(s) {
            Some(Outcome::Decisive { winner: s.turn.other_spec() })
        } else if is_insufficient_material_spec(s) || is_stalemate_spec(s) {
            Some(Outcome::Draw)
        } else {
            None
        },
    }
}

/// True if the move is legal: it is among the moves of its piece to its
/// target, or among the castling moves of its side.
pub open spec fn is_legal_spec(s: State, m: Move) -> bool {
    match m {
        Move::Normal { role, to, .. } => san_candidates_spec(s, role, to).contains(m),
        Move::Put { role, to } => san_candidates_spec(s, role, to).contains(m),
        Move::EnPassant { to, .. } => san_candidates_spec(s, Role::Pawn, to).contains(m),
        Move::Castle { king, rook } => castling_moves_spec(
            s,
            if king.idx() % 8 < rook.idx() % 8 {
                CastlingSide::KingSide
            } else {
                CastlingSide::QueenSide
            },
        ).contains(m),
    }
}

} // verus!
