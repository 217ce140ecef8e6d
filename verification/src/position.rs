//! Positions of chess and its variants: setup, validation, legal moves and
//! the execution of moves.

use vstd::prelude::*;
use crate::attacks;
use crate::bitboard::{bit, has_bit, BACKRANKS, DARK_SQUARES, LIGHT_SQUARES, Bitboard};
use crate::board::{Board, BoardView};
use crate::color::Color;
use crate::material::{Material, MaterialSide};
use crate::movegen;
use crate::movegen::{
    castling, en_passant, evasions, king_attackers_spec, non_king, pawn_moves, safe_fn, safe_king,
    slider_blockers,
};
use crate::laws::{lemma_legal_moves, lemma_play_well_formed, lemma_setup_well_formed, pseudo_legal, well_formed};
use crate::movelist::MoveList;
use crate::rules::{
    capture_moves_spec, castling_moves_spec, chess_insufficient, en_passant_moves_spec,
    has_insufficient_material_spec, is_checkmate_spec, is_game_over_spec,
    is_insufficient_material_spec, is_irreversible_spec, is_legal_spec, is_stalemate_spec,
    is_variant_end_spec, legal_moves_spec, outcome_spec, play_spec, promotion_moves_spec,
    relevant_ep, san_candidates_spec, setup_errors, setup_of, setup_state, validation,
    variant_outcome_spec,
};
use crate::setup::{Castles, Setup, SetupView, SwapTurn};
use crate::square::{Rank, Square};
use crate::types::{CastlingMode, CastlingSide, Move, Piece, RemainingChecks, Role, Variant};

verus! {

/// Outcome of a game.
#[derive(Clone, Copy, Debug, PartialEq, Eq, Structural)]
pub enum Outcome {
    Decisive { winner: Color },
    Draw,
}

impl Outcome {
    pub fn winner(self) -> (r: Option<Color>)
        ensures
            r == (match self {
                Outcome::Decisive { winner } => Some(winner),
                Outcome::Draw => None::<Color>,
            }),
    {
        match self {
            Outcome::Decisive { winner } => Some(winner),
            Outcome::Draw => None,
        }
    }

    /// The result as it is written in game records: `1-0`, `0-1` or
    /// `1/2-1/2`.
    pub fn notation(&self) -> (r: &'static str)
        ensures
            r@ == (match *self {
                Outcome::Decisive { winner: Color::White } => "1-0"@,
                Outcome::Decisive { winner: Color::Black } => "0-1"@,
                Outcome::Draw => "1/2-1/2"@,
            }),
    {
        match *self {
            Outcome::Decisive { winner: Color::White } => "1-0",
            Outcome::Decisive { winner: Color::Black } => "0-1",
            Outcome::Draw => "1/2-1/2",
        }
    }
}

/// Reasons for a setup not being a legal position, as a set of flags.
#[derive(Clone, Copy, Debug, PartialEq, Eq, Hash, Structural)]
pub struct PositionErrorKind {
    pub empty_board: bool,
    pub missing_king: bool,
    pub too_many_kings: bool,
    pub pawns_on_backrank: bool,
    pub bad_castling_rights: bool,
    pub invalid_ep_square: bool,
    pub opposite_check: bool,
    pub impossible_check: bool,
    pub variant: bool,
}

/// The value of a flag in the number that stands for a set of flags.
pub open spec fn flag_bit(set: bool, bit: u32) -> int {
    if set {
        bit as int
    } else {
        0
    }
}

impl PositionErrorKind {
    pub const EMPTY_BOARD: u32 = 1;

    pub const MISSING_KING: u32 = 2;

    pub const TOO_MANY_KINGS: u32 = 4;

    pub const PAWNS_ON_BACKRANK: u32 = 8;

    pub const BAD_CASTLING_RIGHTS: u32 = 16;

    pub const INVALID_EP_SQUARE: u32 = 32;

    pub const OPPOSITE_CHECK: u32 = 64;

    pub const IMPOSSIBLE_CHECK: u32 = 128;

    pub const VARIANT: u32 = 256;

    /// The set without any flag.
    pub open spec fn none() -> PositionErrorKind {
        PositionErrorKind {
            empty_board: false,
            missing_king: false,
            too_many_kings: false,
            pawns_on_backrank: false,
            bad_castling_rights: false,
            invalid_ep_square: false,
            opposite_check: false,
            impossible_check: false,
            variant: false,
        }
    }

    pub open spec fn is_empty_spec(self) -> bool {
        self == PositionErrorKind::none()
    }

    /// The flags of either set.
    pub open spec fn union_spec(self, other: PositionErrorKind) -> PositionErrorKind {
        PositionErrorKind {
            empty_board: self.empty_board || other.empty_board,
            missing_king: self.missing_king || other.missing_king,
            too_many_kings: self.too_many_kings || other.too_many_kings,
            pawns_on_backrank: self.pawns_on_backrank || other.pawns_on_backrank,
            bad_castling_rights: self.bad_castling_rights || other.bad_castling_rights,
            invalid_ep_square: self.invalid_ep_square || other.invalid_ep_square,
            opposite_check: self.opposite_check || other.opposite_check,
            impossible_check: self.impossible_check || other.impossible_check,
            variant: self.variant || other.variant,
        }
    }

    /// The flags of this set that the other lacks.
    pub open spec fn minus_spec(self, other: PositionErrorKind) -> PositionErrorKind {
        PositionErrorKind {
            empty_board: self.empty_board && !other.empty_board,
            missing_king: self.missing_king && !other.missing_king,
            too_many_kings: self.too_many_kings && !other.too_many_kings,
            pawns_on_backrank: self.pawns_on_backrank && !other.pawns_on_backrank,
            bad_castling_rights: self.bad_castling_rights && !other.bad_castling_rights,
            invalid_ep_square: self.invalid_ep_square && !other.invalid_ep_square,
            opposite_check: self.opposite_check && !other.opposite_check,
            impossible_check: self.impossible_check && !other.impossible_check,
            variant: self.variant && !other.variant,
        }
    }

    /// The number that stands for the set: the sum of the values of its
    /// flags.
    pub open spec fn bits_spec(self) -> int {
        flag_bit(self.empty_board, 1) + flag_bit(self.missing_king, 2) + flag_bit(
            self.too_many_kings,
            4,
        ) + flag_bit(self.pawns_on_backrank, 8) + flag_bit(self.bad_castling_rights, 16)
            + flag_bit(self.invalid_ep_square, 32) + flag_bit(self.opposite_check, 64) + flag_bit(
            self.impossible_check,
            128,
        ) + flag_bit(self.variant, 256)
    }

    /// The set without any flag.
    pub fn empty() -> (r: PositionErrorKind)
        ensures
            r == PositionErrorKind::none(),
    {
        PositionErrorKind {
            empty_board: false,
            missing_king: false,
            too_many_kings: false,
            pawns_on_backrank: false,
            bad_castling_rights: false,
            invalid_ep_square: false,
            opposite_check: false,
            impossible_check: false,
            variant: false,
        }
    }

    pub fn is_empty(&self) -> (r: bool)
        ensures
            r == self.is_empty_spec(),
    {
        !(self.empty_board || self.missing_king || self.too_many_kings || self.pawns_on_backrank
            || self.bad_castling_rights || self.invalid_ep_square || self.opposite_check
            || self.impossible_check || self.variant)
    }

    pub fn union(self, other: PositionErrorKind) -> (r: PositionErrorKind)
        ensures
            r == self.union_spec(other),
    {
        PositionErrorKind {
            empty_board: self.empty_board || other.empty_board,
            missing_king: self.missing_king || other.missing_king,
            too_many_kings: self.too_many_kings || other.too_many_kings,
            pawns_on_backrank: self.pawns_on_backrank || other.pawns_on_backrank,
            bad_castling_rights: self.bad_castling_rights || other.bad_castling_rights,
            invalid_ep_square: self.invalid_ep_square || other.invalid_ep_square,
            opposite_check: self.opposite_check || other.opposite_check,
            impossible_check: self.impossible_check || other.impossible_check,
            variant: self.variant || other.variant,
        }
    }

    pub fn minus(self, other: PositionErrorKind) -> (r: PositionErrorKind)
        ensures
            r == self.minus_spec(other),
    {
        PositionErrorKind {
            empty_board: self.empty_board && !other.empty_board,
            missing_king: self.missing_king && !other.missing_king,
            too_many_kings: self.too_many_kings && !other.too_many_kings,
            pawns_on_backrank: self.pawns_on_backrank && !other.pawns_on_backrank,
            bad_castling_rights: self.bad_castling_rights && !other.bad_castling_rights,
            invalid_ep_square: self.invalid_ep_square && !other.invalid_ep_square,
            opposite_check: self.opposite_check && !other.opposite_check,
            impossible_check: self.impossible_check && !other.impossible_check,
            variant: self.variant && !other.variant,
        }
    }

    /// True if every flag of `other` is in this set.
    pub fn contains(&self, other: PositionErrorKind) -> (r: bool)
        ensures
            r == other.minus_spec(*self).is_empty_spec(),
    {
        other.minus(*self).is_empty()
    }

    /// The number that stands for the set.
    pub fn bits(&self) -> (r: u32)
        ensures
            r == self.bits_spec(),
    {
        let low = Self::flag(self.empty_board, 1) + Self::flag(self.missing_king, 2) + Self::flag(
            self.too_many_kings,
            4,
        ) + Self::flag(self.pawns_on_backrank, 8) + Self::flag(self.bad_castling_rights, 16);
        let high = Self::flag(self.invalid_ep_square, 32) + Self::flag(self.opposite_check, 64)
            + Self::flag(self.impossible_check, 128) + Self::flag(self.variant, 256);
        low + high
    }

    fn flag(set: bool, bit: u32) -> (r: u32)
        ensures
            r == flag_bit(set, bit),
    {
        if set {
            bit
        } else {
            0
        }
    }

    /// The set that a number stands for. Bits that name no flag are
    /// dropped.
    pub open spec fn from_bits_truncate_spec(bits: u32) -> PositionErrorKind {
        PositionErrorKind {
            empty_board: bits % 2 >= 1,
            missing_king: bits % 4 >= 2,
            too_many_kings: bits % 8 >= 4,
            pawns_on_backrank: bits % 16 >= 8,
            bad_castling_rights: bits % 32 >= 16,
            invalid_ep_square: bits % 64 >= 32,
            opposite_check: bits % 128 >= 64,
            impossible_check: bits % 256 >= 128,
            variant: bits % 512 >= 256,
        }
    }

    /// The set that a number stands for. Bits that name no flag are
    /// dropped.
    pub fn from_bits_truncate(bits: u32) -> (r: PositionErrorKind)
        ensures
            r == PositionErrorKind::from_bits_truncate_spec(bits),
    {
        PositionErrorKind {
            empty_board: bits % 2 >= 1,
            missing_king: bits % 4 >= 2,
            too_many_kings: bits % 8 >= 4,
            pawns_on_backrank: bits % 16 >= 8,
            bad_castling_rights: bits % 32 >= 16,
            invalid_ep_square: bits % 64 >= 32,
            opposite_check: bits % 128 >= 64,
            impossible_check: bits % 256 >= 128,
            variant: bits % 512 >= 256,
        }
    }
}

/// Error when trying to create a position from an illegal setup. It holds
/// the position all the same.
pub struct PositionError<P> {
    pub pos: Option<P>,
    pub errors: PositionErrorKind,
}

impl<P> PositionError<P> {
    /// The position, if no other flags than those of `ignore` are set.
    pub fn ignore(self, ignore: PositionErrorKind) -> (r: Result<P, Self>)
        ensures
            r == (match self.pos {
                Some(pos) if self.errors.minus_spec(ignore).is_empty_spec() => Ok::<P, Self>(pos),
                _ => Err::<P, Self>(
                    PositionError { pos: self.pos, errors: self.errors.minus_spec(ignore) },
                ),
            }),
    {
        let errors = self.errors.minus(ignore);
        match self.pos {
            Some(pos) => {
                if errors.is_empty() {
                    Ok(pos)
                } else {
                    Err(PositionError { pos: Some(pos), errors })
                }
            },
            None => Err(PositionError { pos: None, errors }),
        }
    }

    /// The position, if no flag is set.
    pub fn strict(self) -> (r: Result<P, Self>)
        ensures
            r == (match self.pos {
                Some(pos) if self.errors.is_empty_spec() => Ok::<P, Self>(pos),
                _ => Err::<P, Self>(self),
            }),
    {
        let r = self.ignore(PositionErrorKind::empty());
        assert(self.errors.minus_spec(PositionErrorKind::none()) == self.errors);
        r
    }

    /// The position, if no other flag than that of bad castling rights is
    /// set.
    pub fn ignore_bad_castling_rights(self) -> (r: Result<P, Self>)
        ensures
            r == (match self.pos {
                Some(pos) if self.errors.minus_spec(
                    PositionErrorKind { bad_castling_rights: true, ..PositionErrorKind::none() },
                ).is_empty_spec() => Ok::<P, Self>(pos),
                _ => Err::<P, Self>(
                    PositionError {
                        pos: self.pos,
                        errors: self.errors.minus_spec(
                            PositionErrorKind {
                                bad_castling_rights: true,
                                ..PositionErrorKind::none()
                            },
                        ),
                    },
                ),
            }),
    {
        let mut ignore = PositionErrorKind::empty();
        ignore.bad_castling_rights = true;
        self.ignore(ignore)
    }

    pub fn kind(&self) -> (r: PositionErrorKind)
        ensures
            r == self.errors,
    {
        self.errors
    }

    pub fn message(&self) -> (r: &'static str)
        ensures
            r@ == "illegal position"@,
    {
        "illegal position"
    }
}

/// What a position holds. Pockets are empty and three checks remain for
/// each side where the variant has none.
pub struct State {
    pub variant: Variant,
    pub board: BoardView,
    pub turn: Color,
    pub castles: Castles,
    pub ep_square: Option<Square>,
    pub halfmoves: u32,
    pub fullmoves: u32,
    pub pockets: Material,
    pub remaining_checks: RemainingChecks,
}

/// One more, but not more than a 32 bit number holds.
pub open spec fn saturating_succ(n: u32) -> u32 {
    if n == u32::MAX {
        n
    } else {
        (n + 1) as u32
    }
}

/// The en passant square after a move: the square that a pawn has passed
/// with a double step from its second rank.
pub open spec fn ep_after(m: Move) -> Option<Square> {
    match m {
        Move::Normal { role, from, to, .. } => {
            if role == Role::Pawn && to.idx() - from.idx() == 16 && from.idx() / 8 == 1 {
                from.offset_spec(8)
            } else if role == Role::Pawn && from.idx() - to.idx() == 16 && from.idx() / 8 == 6 {
                from.offset_spec(-8)
            } else {
                None
            }
        },
        _ => None,
    }
}

/// The castling rights after `color` has made a move: a king gives up the
/// rights of its side, a rook the right of its square, and so does a rook
/// that is captured.
pub open spec fn castles_after(castles: Castles, color: Color, m: Move) -> Castles {
    match m {
        Move::Normal { role, from, capture, to, .. } => {
            let moved = if role == Role::King {
                castles.without_side(color)
            } else if role == Role::Rook {
                castles.without_rook(from)
            } else {
                castles
            };
            if capture == Some(Role::Rook) {
                moved.without_rook(to)
            } else {
                moved
            }
        },
        Move::Castle { .. } => castles.without_side(color),
        _ => castles,
    }
}

/// The role that a piece has after a move.
pub open spec fn role_after(role: Role, promotion: Option<Role>) -> Role {
    match promotion {
        Some(p) => p,
        None => role,
    }
}

/// The side of a castling move: the queen side if the rook stands before
/// the king.
pub open spec fn side_of(king: Square, rook: Square) -> CastlingSide {
    if rook.idx() < king.idx() {
        CastlingSide::QueenSide
    } else {
        CastlingSide::KingSide
    }
}

/// The board after `color` has made a move.
pub open spec fn board_after(board: BoardView, color: Color, m: Move) -> BoardView {
    match m {
        Move::Normal { role, from, to, promotion, .. } => board.without(from.idx()).with(
            to.idx(),
            Piece { color, role: role_after(role, promotion) },
            has_bit(board.promoted, from.idx()) || promotion.is_some(),
        ),
        Move::Castle { king, rook } => {
            let side = side_of(king, rook);
            board.without(king.idx()).without(rook.idx()).with(
                8 * (rook.idx() / 8) + side.rook_to_file_spec().idx(),
                Piece { color, role: Role::Rook },
                false,
            ).with(
                8 * (king.idx() / 8) + side.king_to_file_spec().idx(),
                Piece { color, role: Role::King },
                false,
            )
        },
        Move::EnPassant { from, to } => board.without(8 * (from.idx() / 8) + to.idx() % 8).without(
            from.idx(),
        ).with(to.idx(), Piece { color, role: Role::Pawn }, false),
        Move::Put { role, to } => board.with(to.idx(), Piece { color, role }, false),
    }
}

/// The position after a move, by the rules that all variants share: the
/// halfmove clock restarts with a pawn move, a capture or castling, the
/// number of the move grows after a move of black, and the turn passes.
pub open spec fn do_move_spec(s: State, m: Move) -> State {
    State {
        variant: s.variant,
        board: board_after(s.board, s.turn, m),
        turn: s.turn.other_spec(),
        castles: castles_after(s.castles, s.turn, m),
        ep_square: ep_after(m),
        halfmoves: if m.is_zeroing_spec() {
            0
        } else {
            saturating_succ(s.halfmoves)
        },
        fullmoves: if s.turn == Color::Black {
            saturating_succ(s.fullmoves)
        } else {
            s.fullmoves
        },
        pockets: s.pockets,
        remaining_checks: s.remaining_checks,
    }
}

/// Makes a move on the parts of a position, by the rules that all variants
/// share.
pub fn do_move(
    board: &mut Board,
    turn: &mut Color,
    castles: &mut Castles,
    ep_square: &mut Option<Square>,
    halfmoves: &mut u32,
    fullmoves: &mut u32,
    m: &Move,
)
    ensures
        final(board)@ == board_after(old(board)@, *old(turn), *m),
        final(board)@.wf(),
        *final(turn) == old(turn).other_spec(),
        *final(castles) == castles_after(*old(castles), *old(turn), *m),
        *final(ep_square) == ep_after(*m),
        *final(halfmoves) == (if m.is_zeroing_spec() {
            0
        } else {
            saturating_succ(*old(halfmoves))
        }),
        *final(fullmoves) == (if *old(turn) == Color::Black {
            saturating_succ(*old(fullmoves))
        } else {
            *old(fullmoves)
        }),
{
    let color = *turn;
    *ep_square = None;
    *halfmoves = if m.is_zeroing() {
        0
    } else {
        halfmoves.saturating_add(1)
    };
    match *m {
        Move::Normal { role, from, capture, to, promotion } => {
            let (f, t) = (from.index(), to.index());
            if role == Role::Pawn && t >= f && t - f == 16 && from.rank() == Rank::Second {
                *ep_square = from.offset(8);
            } else if role == Role::Pawn && f >= t && f - t == 16 && from.rank() == Rank::Seventh {
                *ep_square = from.offset(-8);
            }
            if role == Role::King {
                castles.discard_side(color);
            } else if role == Role::Rook {
                castles.discard_rook(from);
            }
            if capture == Some(Role::Rook) {
                castles.discard_rook(to);
            }
            let promoted = board.promoted().contains(from) || promotion.is_some();
            board.discard_piece_at(from);
            let role_now = match promotion {
                Some(p) => p,
                None => role,
            };
            board.set_piece_at(to, role_now.of(color), promoted);
        },
        Move::Castle { king, rook } => {
            let side = CastlingSide::from_queen_side(rook.index() < king.index());
            board.discard_piece_at(king);
            board.discard_piece_at(rook);
            board.set_piece_at(
                Square::from_coords(side.rook_to_file(), rook.rank()),
                color.rook(),
                false,
            );
            board.set_piece_at(
                Square::from_coords(side.king_to_file(), king.rank()),
                color.king(),
                false,
            );
            castles.discard_side(color);
        },
        Move::EnPassant { from, to } => {
            board.discard_piece_at(Square::from_coords(to.file(), from.rank()));
            board.discard_piece_at(from);
            board.set_piece_at(to, color.pawn(), false);
        },
        Move::Put { role, to } => {
            board.set_piece_at(to, Piece { color, role }, false);
        },
    }
    if color.is_black() {
        *fullmoves = fullmoves.saturating_add(1);
    }
    *turn = color.other();
}

/// The pieces of the side to move.
pub open spec fn us(s: State) -> u64 {
    s.board.by_color(s.turn)
}

/// The pieces of the other side.
pub open spec fn them(s: State) -> u64 {
    s.board.by_color(s.turn.other_spec())
}

/// The king of the side to move.
pub open spec fn king(s: State) -> Option<Square> {
    s.board.king_of(s.turn)
}

/// The pieces that give check to the side to move.
pub open spec fn checkers(s: State) -> u64 {
    match king(s) {
        Some(k) => king_attackers_spec(
            s.variant,
            s.board,
            k.idx(),
            s.turn.other_spec(),
            s.board.occupied(),
        ),
        None => 0,
    }
}

/// No pieces in the pockets.
pub open spec fn no_pockets() -> Material {
    Material {
        white: MaterialSide { pawns: 0, knights: 0, bishops: 0, rooks: 0, queens: 0, kings: 0 },
        black: MaterialSide { pawns: 0, knights: 0, bishops: 0, rooks: 0, queens: 0, kings: 0 },
    }
}

/// Three checks left for each side.
pub open spec fn all_checks() -> RemainingChecks {
    RemainingChecks { white: 3, black: 3 }
}

/// The position of standard chess inside a position of King of the Hill,
/// Three-Check or Crazyhouse.
pub open spec fn chess_part(s: State) -> State {
    State {
        variant: Variant::Chess,
        pockets: no_pockets(),
        remaining_checks: all_checks(),
        ..s
    }
}

/// The moves of `pseudo` that do not expose the king of the side to move
/// to a rook, bishop or queen. Nothing is tested without a king, nor, unless
/// `always` is set, where no piece stands alone between the king and such a
/// piece.
pub open spec fn pin_filtered(s: State, pseudo: Seq<Move>, always: bool) -> Seq<Move> {
    match king(s) {
        Some(k) => {
            let blockers = slider_blockers(s.board, them(s), k);
            if blockers != 0 || always {
                pseudo.filter(safe_fn(s.board, s.turn, k, blockers))
            } else {
                pseudo
            }
        },
        None => pseudo,
    }
}

/// The castling moves of the side to move, on the king side and then on the
/// queen side.
pub open spec fn both_castlings(s: State) -> Seq<Move> {
    match king(s) {
        Some(k) => castling(s.variant, s.board, s.turn, s.castles, k, CastlingSide::KingSide)
            + castling(s.variant, s.board, s.turn, s.castles, k, CastlingSide::QueenSide),
        None => Seq::empty(),
    }
}

/// The moves of the king of the side to move to safe squares of `target`.
pub open spec fn safe_king_moves(s: State, target: u64) -> Seq<Move> {
    match king(s) {
        Some(k) => safe_king(s.board, s.turn, k, target),
        None => Seq::empty(),
    }
}

/// The moves out of check of the side to move.
pub open spec fn evasion_moves(s: State) -> Seq<Move> {
    match king(s) {
        Some(k) => evasions(s.board, s.turn, k, checkers(s)),
        None => Seq::empty(),
    }
}

/// The legal moves by the rules of standard chess: the en passant
/// captures, then, without check, the moves of the pieces, of the king to
/// safe squares and the castling moves, or, in check, the moves out of
/// check; of all these, those that do not expose the king.
pub open spec fn standard_moves(s: State) -> Seq<Move> {
    let ep = en_passant(s.board, s.turn, s.ep_square);
    let others = if checkers(s) == 0 {
        non_king(s.board, s.turn, !us(s)) + safe_king_moves(s, !us(s)) + both_castlings(s)
    } else {
        evasion_moves(s)
    };
    pin_filtered(s, ep + others, ep.len() > 0)
}

/// The legal castling move on `side` by the rules of standard chess.
pub open spec fn standard_castling_moves(s: State, side: CastlingSide) -> Seq<Move> {
    match king(s) {
        Some(k) => castling(s.variant, s.board, s.turn, s.castles, k, side),
        None => Seq::empty(),
    }
}

/// The legal en passant captures by the rules of standard chess.
pub open spec fn standard_en_passant_moves(s: State) -> Seq<Move> {
    let ep = en_passant(s.board, s.turn, s.ep_square);
    if ep.len() > 0 {
        pin_filtered(s, ep, true)
    } else {
        ep
    }
}

pub open spec fn promotion_fn() -> spec_fn(Move) -> bool {
    |m: Move| m.is_promotion_spec()
}

pub open spec fn en_passant_fn() -> spec_fn(Move) -> bool {
    |m: Move| m.is_en_passant_spec()
}

pub open spec fn capture_fn() -> spec_fn(Move) -> bool {
    |m: Move| m.is_capture_spec()
}

pub open spec fn castling_fn(side: CastlingSide) -> spec_fn(Move) -> bool {
    |m: Move| m.castling_side_spec() == Some(side)
}

/// True for a move of a piece of `role` to `to`, a drop included, and
/// castling excepted.
pub open spec fn is_san_candidate(role: Role, to: Square, m: Move) -> bool {
    match m {
        Move::Normal { role: r, to: t, .. } => to == t && role == r,
        Move::Put { role: r, to: t } => to == t && role == r,
        Move::EnPassant { to: t, .. } => role == Role::Pawn && t == to,
        Move::Castle { .. } => false,
    }
}

pub open spec fn san_candidate_fn(role: Role, to: Square) -> spec_fn(Move) -> bool {
    |m: Move| is_san_candidate(role, to, m)
}

/// The legal promotions by the rules of standard chess.
pub open spec fn standard_promotion_moves(s: State) -> Seq<Move> {
    let pseudo = if checkers(s) == 0 {
        pawn_moves(s.board, s.turn, BACKRANKS)
    } else {
        evasion_moves(s).filter(promotion_fn())
    };
    pin_filtered(s, pseudo, false)
}

/// The squares from which a piece of `role` other than pawn and king
/// would reach `to`.
pub open spec fn reverse_attacks(board: BoardView, role: Role, to: Square) -> u64 {
    match role {
        Role::Pawn => 0,
        Role::King => 0,
        Role::Knight => attacks::knight_attacks_spec(to.idx()),
        Role::Bishop => attacks::bishop_attacks_spec(to.idx(), board.occupied()),
        Role::Rook => attacks::rook_attacks_spec(to.idx(), board.occupied()),
        Role::Queen => attacks::queen_attacks_spec(to.idx(), board.occupied()),
    }
}

/// The legal moves of a piece of `role` to `to` by the rules of standard
/// chess, castling excepted.
pub open spec fn standard_san_candidates(s: State, role: Role, to: Square) -> Seq<Move> {
    let direct = if checkers(s) == 0 {
        if has_bit(us(s), to.idx()) {
            Seq::empty()
        } else {
            (match role {
                Role::Pawn => pawn_moves(s.board, s.turn, bit(to.idx())),
                Role::King => safe_king_moves(s, bit(to.idx())),
                _ => Seq::empty(),
            }) + movegen::moves_from(
                s.board,
                role,
                reverse_attacks(s.board, role, to) & (us(s) & s.board.by_role(role)),
                to,
            )
        }
    } else {
        evasion_moves(s).filter(san_candidate_fn(role, to))
    };
    let ep = if role == Role::Pawn && Some(to) == s.ep_square {
        en_passant(s.board, s.turn, s.ep_square)
    } else {
        Seq::empty()
    };
    pin_filtered(s, direct + ep, ep.len() > 0)
}

/// The parts of a position that decide its moves.
pub struct Parts<'a> {
    pub variant: Variant,
    pub board: &'a Board,
    pub turn: Color,
    pub castles: &'a Castles,
    pub ep_square: Option<Square>,
}

impl<'a> Parts<'a> {
    /// True if these are the parts of `s`.
    pub open spec fn of(&self, s: State) -> bool {
        &&& self.variant == s.variant
        &&& self.board@ == s.board
        &&& self.turn == s.turn
        &&& *self.castles == s.castles
        &&& self.ep_square == s.ep_square
    }

    /// The pieces that give check to the side to move.
    pub fn checkers(&self, Ghost(s): Ghost<State>) -> (r: Bitboard)
        requires
            self.of(s),
        ensures
            r.0 == checkers(s),
    {
        match self.board.king_of(self.turn) {
            Some(k) => movegen::king_attackers(
                self.variant,
                self.board,
                k,
                self.turn.other(),
                self.board.occupied(),
            ),
            None => Bitboard(0),
        }
    }

    /// Keeps the moves that do not expose the king of the side to move.
    pub fn pin_filter(&self, always: bool, moves: &mut MoveList, Ghost(s): Ghost<State>)
        requires
            self.of(s),
        ensures
            final(moves)@ == pin_filtered(s, old(moves)@, always),
    {
        if let Some(k) = self.board.king_of(self.turn) {
            let blockers = movegen::slider_blockers_of(
                self.board,
                self.board.by_color(self.turn.other()),
                k,
            );
            if blockers.any() || always {
                movegen::retain_safe(self.board, self.turn, k, blockers, moves);
            }
        }
    }

    /// Appends the castling moves of the side to move.
    pub fn gen_both_castlings(&self, moves: &mut MoveList, Ghost(s): Ghost<State>)
        requires
            self.of(s),
        ensures
            final(moves)@ == old(moves)@ + both_castlings(s),
    {
        if let Some(k) = self.board.king_of(self.turn) {
            movegen::gen_castling_moves(
                self.variant,
                self.board,
                self.turn,
                self.castles,
                k,
                CastlingSide::KingSide,
                moves,
            );
            movegen::gen_castling_moves(
                self.variant,
                self.board,
                self.turn,
                self.castles,
                k,
                CastlingSide::QueenSide,
                moves,
            );
        }
        assert(moves@ =~= old(moves)@ + both_castlings(s));
    }

    /// Appends the moves of the king to safe squares of `target`.
    pub fn gen_safe_king_moves(&self, target: Bitboard, moves: &mut MoveList, Ghost(s): Ghost<State>)
        requires
            self.of(s),
        ensures
            final(moves)@ == old(moves)@ + safe_king_moves(s, target.0),
    {
        if let Some(k) = self.board.king_of(self.turn) {
            movegen::gen_safe_king(self.board, self.turn, k, target, moves);
        }
        assert(moves@ =~= old(moves)@ + safe_king_moves(s, target.0));
    }

    /// Appends the moves out of check.
    pub fn gen_evasion_moves(&self, checking: Bitboard, moves: &mut MoveList, Ghost(s): Ghost<State>)
        requires
            self.of(s),
            checking.0 == checkers(s),
        ensures
            final(moves)@ == old(moves)@ + evasion_moves(s),
    {
        if let Some(k) = self.board.king_of(self.turn) {
            movegen::gen_evasions(self.board, self.turn, k, checking, moves);
        }
        assert(moves@ =~= old(moves)@ + evasion_moves(s));
    }

    /// The legal moves by the rules of standard chess.
    pub fn standard_moves(&self, moves: &mut MoveList, Ghost(s): Ghost<State>)
        requires
            self.of(s),
        ensures
            final(moves)@ == standard_moves(s),
    {
        moves.clear();
        let has_ep = movegen::gen_en_passant(self.board, self.turn, self.ep_square, moves);
        let ghost ep = moves@;
        assert(ep =~= en_passant(s.board, s.turn, s.ep_square));
        let checking = self.checkers(Ghost(s));
        if checking.is_empty() {
            let target = Bitboard(!self.board.by_color(self.turn).0);
            movegen::gen_non_king(self.board, self.turn, target, moves);
            self.gen_safe_king_moves(target, moves, Ghost(s));
            self.gen_both_castlings(moves, Ghost(s));
            assert(moves@ =~= ep + (non_king(s.board, s.turn, !us(s)) + safe_king_moves(s, !us(s))
                + both_castlings(s)));
        } else {
            self.gen_evasion_moves(checking, moves, Ghost(s));
        }
        self.pin_filter(has_ep, moves, Ghost(s));
    }

    /// The legal castling move on `side` by the rules of standard chess.
    pub fn standard_castling_moves(
        &self,
        side: CastlingSide,
        moves: &mut MoveList,
        Ghost(s): Ghost<State>,
    )
        requires
            self.of(s),
        ensures
            final(moves)@ == standard_castling_moves(s, side),
    {
        moves.clear();
        if let Some(k) = self.board.king_of(self.turn) {
            movegen::gen_castling_moves(
                self.variant,
                self.board,
                self.turn,
                self.castles,
                k,
                side,
                moves,
            );
        }
        assert(moves@ =~= standard_castling_moves(s, side));
    }

    /// The legal en passant captures by the rules of standard chess.
    pub fn standard_en_passant_moves(&self, moves: &mut MoveList, Ghost(s): Ghost<State>)
        requires
            self.of(s),
        ensures
            final(moves)@ == standard_en_passant_moves(s),
    {
        moves.clear();
        if movegen::gen_en_passant(self.board, self.turn, self.ep_square, moves) {
            assert(moves@ =~= en_passant(s.board, s.turn, s.ep_square));
            self.pin_filter(true, moves, Ghost(s));
        } else {
            assert(moves@ =~= en_passant(s.board, s.turn, s.ep_square));
        }
    }

    /// The legal promotions by the rules of standard chess.
    pub fn standard_promotion_moves(&self, moves: &mut MoveList, Ghost(s): Ghost<State>)
        requires
            self.of(s),
        ensures
            final(moves)@ == standard_promotion_moves(s),
    {
        moves.clear();
        let checking = self.checkers(Ghost(s));
        if checking.is_empty() {
            movegen::gen_pawn_moves(self.board, self.turn, Bitboard(BACKRANKS), moves);
            assert(moves@ =~= pawn_moves(s.board, s.turn, BACKRANKS));
        } else {
            self.gen_evasion_moves(checking, moves, Ghost(s));
            assert(moves@ =~= evasion_moves(s));
            retain_promotions(moves);
        }
        self.pin_filter(false, moves, Ghost(s));
    }

    /// The legal moves of a piece of `role` to `to` by the rules of
    /// standard chess, castling excepted.
    pub fn standard_san_candidates(
        &self,
        role: Role,
        to: Square,
        moves: &mut MoveList,
        Ghost(s): Ghost<State>,
    )
        requires
            self.of(s),
        ensures
            final(moves)@ == standard_san_candidates(s, role, to),
    {
        moves.clear();
        let checking = self.checkers(Ghost(s));
        let us = self.board.by_color(self.turn);
        if checking.is_empty() {
            if !us.contains(to) {
                let only = Bitboard::from_square(to);
                match role {
                    Role::Pawn => movegen::gen_pawn_moves(self.board, self.turn, only, moves),
                    Role::King => self.gen_safe_king_moves(only, moves, Ghost(s)),
                    _ => {},
                }
                let origins = match role {
                    Role::Pawn => Bitboard(0),
                    Role::King => Bitboard(0),
                    Role::Knight => attacks::knight_attacks(to),
                    Role::Bishop => attacks::bishop_attacks(to, self.board.occupied()),
                    Role::Rook => attacks::rook_attacks(to, self.board.occupied()),
                    Role::Queen => attacks::queen_attacks(to, self.board.occupied()),
                };
                movegen::push_moves_from(
                    self.board,
                    role,
                    Bitboard(origins.0 & (us.0 & self.board.by_role(role).0)),
                    to,
                    moves,
                );
            }
        } else {
            self.gen_evasion_moves(checking, moves, Ghost(s));
            assert(moves@ =~= evasion_moves(s));
            filter_san_candidates(role, to, moves);
        }
        let ghost direct = moves@;
        let is_ep = match self.ep_square {
            Some(e) => role == Role::Pawn && e == to,
            None => false,
        };
        let has_ep = is_ep && movegen::gen_en_passant(
            self.board,
            self.turn,
            self.ep_square,
            moves,
        );
        proof {
            let ep = if role == Role::Pawn && Some(to) == s.ep_square {
                en_passant(s.board, s.turn, s.ep_square)
            } else {
                Seq::empty()
            };
            assert(moves@ =~= direct + ep);
        }
        self.pin_filter(has_ep, moves, Ghost(s));
    }
}

/// Keeps the promotions.
pub fn retain_promotions(moves: &mut MoveList)
    ensures
        final(moves)@ == old(moves)@.filter(promotion_fn()),
{
    let f = |m: &Move| -> (r: bool)
        ensures
            r == m.is_promotion_spec(),
        { m.is_promotion() };
    moves.retain_by(f, Ghost(promotion_fn()));
}

/// Keeps the en passant captures.
pub fn retain_en_passant(moves: &mut MoveList)
    ensures
        final(moves)@ == old(moves)@.filter(en_passant_fn()),
{
    let f = |m: &Move| -> (r: bool)
        ensures
            r == m.is_en_passant_spec(),
        { m.is_en_passant() };
    moves.retain_by(f, Ghost(en_passant_fn()));
}

/// Keeps the captures.
pub fn retain_captures(moves: &mut MoveList)
    ensures
        final(moves)@ == old(moves)@.filter(capture_fn()),
{
    let f = |m: &Move| -> (r: bool)
        ensures
            r == m.is_capture_spec(),
        { m.is_capture() };
    moves.retain_by(f, Ghost(capture_fn()));
}

/// Keeps the castling moves on `side`.
pub fn retain_castling(side: CastlingSide, moves: &mut MoveList)
    ensures
        final(moves)@ == old(moves)@.filter(castling_fn(side)),
{
    let f = |m: &Move| -> (r: bool)
        ensures
            r == (m.castling_side_spec() == Some(side)),
        {
            match m.castling_side() {
                Some(s) => s == side,
                None => false,
            }
        };
    moves.retain_by(f, Ghost(castling_fn(side)));
}

/// Keeps the moves of a piece of `role` to `to`, castling excepted.
pub fn filter_san_candidates(role: Role, to: Square, moves: &mut MoveList)
    ensures
        final(moves)@ == old(moves)@.filter(san_candidate_fn(role, to)),
{
    let f = |m: &Move| -> (r: bool)
        ensures
            r == is_san_candidate(role, to, *m),
        {
            match *m {
                Move::Normal { role: r, to: t, .. } => to == t && role == r,
                Move::Put { role: r, to: t } => to == t && role == r,
                Move::EnPassant { to: t, .. } => role == Role::Pawn && t == to,
                Move::Castle { .. } => false,
            }
        };
    moves.retain_by(f, Ghost(san_candidate_fn(role, to)));
}

/// A legal position of chess or of a chess variant.
pub trait Position: Setup + Sized {
    /// What the position holds.
    spec fn state(&self) -> State;

    /// The variant of the positions of this type.
    spec fn variant() -> Variant;

    /// A position shows as a setup what it holds.
    proof fn lemma_setup(&self)
        ensures
            self.setup() == setup_of(self.state()),
            self.state().variant == Self::variant(),
    ;

    /// Collects all legal moves in an existing buffer. The moves are a
    /// set, and each follows the way its piece moves.
    fn legal_moves(&self, moves: &mut MoveList)
        ensures
            final(moves)@ == legal_moves_spec(self.state()),
            final(moves)@.no_duplicates(),
            forall|m: Move| #[trigger] final(moves)@.contains(m) ==> pseudo_legal(self.state(), m),
    ;

    /// Generates a subset of the legal moves: all piece moves and drops of
    /// type `role` to the square `to`, excluding castling moves.
    fn san_candidates(&self, role: Role, to: Square, moves: &mut MoveList)
        ensures
            final(moves)@ == san_candidates_spec(self.state(), role, to),
    ;

    /// Generates legal castling moves.
    fn castling_moves(&self, side: CastlingSide, moves: &mut MoveList)
        ensures
            final(moves)@ == castling_moves_spec(self.state(), side),
    ;

    /// Generates en passant moves.
    fn en_passant_moves(&self, moves: &mut MoveList)
        ensures
            final(moves)@ == en_passant_moves_spec(self.state()),
    ;

    /// Generates capture moves.
    fn capture_moves(&self, moves: &mut MoveList)
        ensures
            final(moves)@ == capture_moves_spec(self.state()),
    ;

    /// Generates promotion moves.
    fn promotion_moves(&self, moves: &mut MoveList)
        ensures
            final(moves)@ == promotion_moves_spec(self.state()),
    ;

    /// Tests if a move is irreversible.
    fn is_irreversible(&self, m: &Move) -> (r: bool)
        ensures
            r == is_irreversible_spec(self.state(), *m),
    ;

    /// Attacks that a king on `square` would have to deal with.
    fn king_attackers(&self, square: Square, attacker: Color, occupied: Bitboard) -> (r: Bitboard)
        ensures
            r.0 == king_attackers_spec(
                self.state().variant,
                self.state().board,
                square.idx(),
                attacker,
                occupied.0,
            ),
    ;

    /// The en passant square as it is set, whether or not a pawn can
    /// capture on it.
    fn maybe_ep_square(&self) -> (r: Option<Square>)
        ensures
            r == self.state().ep_square,
    ;

    /// Castling paths and unmoved rooks. Every position is well formed:
    /// on its board no square has two colors or two roles, and a square
    /// has a role exactly if it has a color.
    fn castles(&self) -> (r: &Castles)
        ensures
            *r == self.state().castles,
            well_formed(self.state()),
    ;

    /// Checks if the game is over due to a special variant end condition.
    fn is_variant_end(&self) -> (r: bool)
        ensures
            r == is_variant_end_spec(self.state()),
    ;

    /// Tests if a side has insufficient winning material.
    fn has_insufficient_material(&self, color: Color) -> (r: bool)
        ensures
            r == has_insufficient_material_spec(self.state(), color),
    ;

    /// Tests special variant winning, losing and drawing conditions.
    fn variant_outcome(&self) -> (r: Option<Outcome>)
        ensures
            r == variant_outcome_spec(self.state()),
    ;

    /// Plays a move. It is the caller's responsibility to ensure the move
    /// is legal.
    fn play_unchecked(&mut self, m: &Move)
        ensures
            final(self).state() == play_spec(old(self).state(), *m),
    ;

    /// Generates legal moves.
    fn legals(&self) -> (r: MoveList)
        ensures
            r@ == legal_moves_spec(self.state()),
            r@.no_duplicates(),
            forall|m: Move| #[trigger] r@.contains(m) ==> pseudo_legal(self.state(), m),
    {
        let mut legals = MoveList::new();
        self.legal_moves(&mut legals);
        legals
    }

    /// Tests a move for legality.
    fn is_legal(&self, m: &Move) -> (r: bool)
        ensures
            r == is_legal_spec(self.state(), *m),
    {
        let mut moves = MoveList::new();
        match *m {
            Move::Normal { role, to, .. } => self.san_candidates(role, to, &mut moves),
            Move::Put { role, to } => self.san_candidates(role, to, &mut moves),
            Move::EnPassant { to, .. } => self.san_candidates(Role::Pawn, to, &mut moves),
            Move::Castle { king, rook } => {
                if king.file().index() < rook.file().index() {
                    self.castling_moves(CastlingSide::KingSide, &mut moves)
                } else {
                    self.castling_moves(CastlingSide::QueenSide, &mut moves)
                }
            },
        }
        moves.contains(m)
    }

    /// Bitboard of pieces giving check.
    fn checkers(&self) -> (r: Bitboard)
        ensures
            r.0 == checkers(self.state()),
    {
        proof {
            self.lemma_setup();
        }
        match self.board().king_of(self.turn()) {
            Some(k) => self.king_attackers(k, self.turn().other(), self.board().occupied()),
            None => Bitboard(0),
        }
    }

    /// Tests if the king is in check.
    fn is_check(&self) -> (r: bool)
        ensures
            r == (checkers(self.state()) != 0),
    {
        self.checkers().any()
    }

    /// Tests for checkmate.
    fn is_checkmate(&self) -> (r: bool)
        ensures
            r == is_checkmate_spec(self.state()),
    {
        if self.checkers().is_empty() {
            return false;
        }
        let mut legals = MoveList::new();
        self.legal_moves(&mut legals);
        legals.is_empty()
    }

    /// Tests for stalemate.
    fn is_stalemate(&self) -> (r: bool)
        ensures
            r == is_stalemate_spec(self.state()),
    {
        if !self.checkers().is_empty() || self.is_variant_end() {
            false
        } else {
            let mut legals = MoveList::new();
            self.legal_moves(&mut legals);
            legals.is_empty()
        }
    }

    /// Tests if both sides have insufficient winning material.
    fn is_insufficient_material(&self) -> (r: bool)
        ensures
            r == is_insufficient_material_spec(self.state()),
    {
        self.has_insufficient_material(Color::White) && self.has_insufficient_material(
            Color::Black,
        )
    }

    /// Tests if the game is over due to checkmate, stalemate, insufficient
    /// material or variant end.
    fn is_game_over(&self) -> (r: bool)
        ensures
            r == is_game_over_spec(self.state()),
    {
        let mut legals = MoveList::new();
        self.legal_moves(&mut legals);
        legals.is_empty() || self.is_insufficient_material()
    }

    /// The outcome of the game, or `None` if the game is not over.
    fn outcome(&self) -> (r: Option<Outcome>)
        ensures
            r == outcome_spec(self.state()),
    {
        proof {
            self.lemma_setup();
        }
        match self.variant_outcome() {
            Some(outcome) => Some(outcome),
            None => {
                if self.is_checkmate() {
                    Some(Outcome::Decisive { winner: self.turn().other() })
                } else if self.is_insufficient_material() || self.is_stalemate() {
                    Some(Outcome::Draw)
                } else {
                    None
                }
            },
        }
    }

    /// Plays a move, if it is legal. An illegal move gives back the
    /// position as it was.
    fn play(self, m: &Move) -> (r: Result<Self, Self>)
        ensures
            is_legal_spec(self.state(), *m) ==> (r matches Ok(pos) && pos.state() == play_spec(
                self.state(),
                *m,
            )),
            !is_legal_spec(self.state(), *m) ==> r == Err::<Self, Self>(self),
    {
        let mut pos = self;
        if pos.is_legal(m) {
            pos.play_unchecked(m);
            Ok(pos)
        } else {
            Err(pos)
        }
    }
}

/// What `from_setup_with_mode` owes: the position that the setup describes,
/// as a success if nothing is wrong with it, and else inside an error with
/// the flags of what is wrong.
pub open spec fn is_setup_result<P: Position>(
    r: Result<P, PositionError<P>>,
    sv: SetupView,
    mode: Option<CastlingMode>,
) -> bool {
    let errors = setup_errors(P::variant(), sv, mode);
    let state = setup_state(P::variant(), sv, mode);
    match r {
        Ok(pos) => errors.is_empty_spec() && pos.state() == state,
        Err(e) => !errors.is_empty_spec() && e.errors == errors && (e.pos matches Some(pos)
            && pos.state() == state),
    }
}

/// The setup after a turn is passed: the other side is to move, and there
/// is no en passant square.
pub open spec fn swapped(sv: SetupView) -> SetupView {
    SetupView { turn: sv.turn.other_spec(), ep_square: None, ..sv }
}

/// Validate and set up an arbitrary position. All provided chess variants
/// support this.
pub trait FromSetup: Position {
    /// Sets up a position, in the given castling mode or in the one that
    /// the setup shows.
    fn from_setup_with_mode<S: Setup>(setup: &S, mode: Option<CastlingMode>) -> (r: Result<
        Self,
        PositionError<Self>,
    >)
        ensures
            is_setup_result(r, setup.setup(), mode),
    ;

    /// Sets up a position.
    fn from_setup<S: Setup>(setup: &S) -> (r: Result<Self, PositionError<Self>>)
        ensures
            is_setup_result(r, setup.setup(), None),
    {
        Self::from_setup_with_mode(setup, None)
    }

    /// Swap turns. This is sometimes called "playing a null move". It
    /// fails if the position is then not valid any more, as with a check
    /// that has to be averted.
    fn swap_turn(self) -> (r: Result<Self, PositionError<Self>>)
        ensures
            is_setup_result(r, swapped(setup_of(self.state())), Some(self.state().castles.mode)),
    {
        proof {
            self.lemma_setup();
        }
        let mode = self.castles().mode();
        Self::from_setup_with_mode(&SwapTurn(self), Some(mode))
    }
}

/// Tells what is wrong with a position, by the rules that all variants
/// share. Every test is made, whatever the others find.
pub fn validate<P: Position>(pos: &P) -> (r: PositionErrorKind)
    ensures
        r == validation(pos.state()),
{
    proof {
        pos.lemma_setup();
        broadcast use Square::lemma_idx_at;

    }
    let ghost s = pos.state();
    let board = pos.board();
    let turn = pos.turn();
    let occupied = board.occupied();
    let mut errors = PositionErrorKind::empty();
    errors.empty_board = occupied.is_empty();
    errors.pawns_on_backrank = board.pawns().0 & BACKRANKS != 0;
    if let Some(ep_square) = pos.maybe_ep_square() {
        if !Bitboard::relative_rank(turn, Rank::Sixth).contains(ep_square) {
            errors.invalid_ep_square = true;
        } else {
            let back: i8 = match turn {
                Color::White => -8,
                Color::Black => 8,
            };
            match (ep_square.offset(back), ep_square.offset(-back)) {
                (Some(fifth), Some(seventh)) => {
                    if !pos.their(Role::Pawn).contains(fifth) || occupied.contains(ep_square)
                        || occupied.contains(seventh) {
                        errors.invalid_ep_square = true;
                    }
                },
                _ => {
                    errors.invalid_ep_square = true;
                },
            }
        }
    }
    errors.missing_king = board.king_of(Color::White).is_none() || board.king_of(
        Color::Black,
    ).is_none();
    errors.too_many_kings = Bitboard(board.kings().0 & board.white().0).more_than_one()
        || Bitboard(board.kings().0 & board.black().0).more_than_one();
    if let Some(their_king) = board.king_of(turn.other()) {
        errors.opposite_check = pos.king_attackers(their_king, turn, occupied).any();
    }
    if let Some(our_king) = board.king_of(turn) {
        let checking = pos.checkers();
        if let (Some(a), Some(b)) = (checking.first(), checking.last()) {
            errors.impossible_check = a != b && (checking.count() > 2 || attacks::aligned(
                a,
                b,
                our_king,
            ));
        }
    }
    errors
}

/// Tests if a move is irreversible by the common rule, given the castling
/// rights as a setup shows them, whether the side to move has any, and
/// whether there is a legal en passant capture.
pub fn is_irreversible_by(rights: Bitboard, has_side: bool, has_ep: bool, m: &Move) -> (r: bool)
    ensures
        r == ((match *m {
            Move::Normal { role, from, capture, to, .. } => role == Role::Pawn || capture.is_some()
                || rights.has(from) || rights.has(to) || (role == Role::King && has_side),
            _ => true,
        }) || has_ep),
{
    (match *m {
        Move::Normal { role, from, capture, to, .. } => role == Role::Pawn || capture.is_some()
            || rights.contains(from) || rights.contains(to) || (role == Role::King && has_side),
        _ => true,
    }) || has_ep
}

/// A standard Chess position.
#[derive(Clone, Copy, Debug)]
pub struct Chess {
    board: Board,
    turn: Color,
    castles: Castles,
    ep_square: Option<Square>,
    halfmoves: u32,
    fullmoves: u32,
}

/// Tests if `color` has insufficient winning material in standard chess.
fn is_chess_insufficient(board: &Board, color: Color) -> (r: bool)
    ensures
        r == chess_insufficient(board@, color),
{
    let ours = board.by_color(color);
    // Pawns, rooks and queens are never insufficient material.
    if ours.0 & (board.pawns().0 | board.rooks_and_queens().0) != 0 {
        return false;
    }
    // Knights are only insufficient material if we have nothing else and
    // the opponent has nothing that could block its own king.
    if ours.0 & board.knights().0 != 0 {
        return ours.count() <= 2 && board.by_color(color.other()).0 & !board.kings().0
            & !board.queens().0 == 0;
    }
    // Bishops are only insufficient material if all bishops stand on
    // squares of one color and there are neither knights nor pawns.
    if ours.0 & board.bishops().0 != 0 {
        let same_color = board.bishops().0 & DARK_SQUARES == 0 || board.bishops().0 & LIGHT_SQUARES
            == 0;
        return same_color && board.knights().is_empty() && board.pawns().is_empty();
    }
    true
}

impl Chess {
    #[verifier::type_invariant]
    spec fn inv(&self) -> bool {
        well_formed(self.held())
    }

    /// What the position holds.
    pub closed spec fn held(&self) -> State {
        State {
            variant: Variant::Chess,
            board: self.board@,
            turn: self.turn,
            castles: self.castles,
            ep_square: self.ep_square,
            halfmoves: self.halfmoves,
            fullmoves: self.fullmoves,
            pockets: no_pockets(),
            remaining_checks: all_checks(),
        }
    }

    /// A position of standard chess holds the variant of that name, empty
    /// pockets and three checks for each side.
    pub broadcast proof fn lemma_held(self)
        ensures
            (#[trigger] self.held()).variant == Variant::Chess,
            self.held().pockets == no_pockets(),
            self.held().remaining_checks == all_checks(),
    {
    }

    /// The starting position of standard chess.
    pub fn new() -> (r: Chess)
        ensures
            r.held() == crate::reachable::initial(Variant::Chess),
    {
        proof {
            crate::laws::lemma_standard_castles();
        }
        Chess {
            board: Board::new(),
            turn: Color::White,
            castles: Castles::new(),
            ep_square: None,
            halfmoves: 0,
            fullmoves: 1,
        }
    }

    fn parts(&self) -> (r: Parts<'_>)
        ensures
            r.of(self.held()),
    {
        Parts {
            variant: Variant::Chess,
            board: &self.board,
            turn: self.turn,
            castles: &self.castles,
            ep_square: self.ep_square,
        }
    }

    /// The en passant square, if there is a legal en passant capture.
    fn relevant_ep_square(&self) -> (r: Option<Square>)
        ensures
            r == relevant_ep(self.held()),
    {
        match self.ep_square {
            Some(e) => {
                let mut moves = MoveList::new();
                self.parts().standard_en_passant_moves(&mut moves, Ghost(self.held()));
                if moves.is_empty() {
                    None
                } else {
                    Some(e)
                }
            },
            None => None,
        }
    }

    /// Tells whether a move gives check.
    pub fn gives_check(&self, m: &Move) -> (r: bool)
        ensures
            r == (checkers(do_move_spec(self.held(), *m)) != 0),
    {
        let mut pos = *self;
        pos.play_unchecked(m);
        pos.is_check()
    }

    /// The position that a setup describes, with what is wrong with it.
    pub fn from_setup_with_mode_unchecked<S: Setup>(setup: &S, mode: Option<CastlingMode>) -> (r: (
        Chess,
        PositionErrorKind,
    ))
        ensures
            r.0.held() == setup_state(Variant::Chess, setup.setup(), mode),
            r.1 == setup_errors(Variant::Chess, setup.setup(), mode),
    {
        let (castles, mut errors) = match Castles::from_setup_with_mode(setup, mode) {
            Ok(castles) => (castles, PositionErrorKind::empty()),
            Err(castles) => {
                let mut bad = PositionErrorKind::empty();
                bad.bad_castling_rights = true;
                (castles, bad)
            },
        };
        let fullmoves = setup.fullmoves();
        let wf_board = setup.board().occupied();
        proof {
            lemma_setup_well_formed(Variant::Chess, setup.setup(), mode);
        }
        let pos = Chess {
            board: *setup.board(),
            turn: setup.turn(),
            castles,
            ep_square: setup.ep_square(),
            halfmoves: setup.halfmoves(),
            fullmoves: if fullmoves == 0 {
                1
            } else {
                fullmoves
            },
        };
        let errors = errors.union(validate(&pos));
        (pos, errors)
    }
}

impl Setup for Chess {
    open spec fn setup(&self) -> SetupView {
        setup_of(self.held())
    }

    fn board(&self) -> (r: &Board) {
        &self.board
    }

    fn pockets(&self) -> (r: Option<Material>) {
        None
    }

    fn turn(&self) -> (r: Color) {
        self.turn
    }

    fn castling_rights(&self) -> (r: Bitboard) {
        self.castles.castling_rights()
    }

    fn ep_square(&self) -> (r: Option<Square>) {
        self.relevant_ep_square()
    }

    fn remaining_checks(&self) -> (r: Option<RemainingChecks>) {
        None
    }

    fn halfmoves(&self) -> (r: u32) {
        self.halfmoves
    }

    fn fullmoves(&self) -> (r: u32) {
        self.fullmoves
    }
}

impl FromSetup for Chess {
    fn from_setup_with_mode<S: Setup>(setup: &S, mode: Option<CastlingMode>) -> (r: Result<
        Chess,
        PositionError<Chess>,
    >) {
        let (pos, errors) = Chess::from_setup_with_mode_unchecked(setup, mode);
        PositionError { pos: Some(pos), errors }.strict()
    }
}

impl Position for Chess {
    open spec fn state(&self) -> State {
        self.held()
    }

    open spec fn variant() -> Variant {
        Variant::Chess
    }

    proof fn lemma_setup(&self) {
    }

    fn play_unchecked(&mut self, m: &Move) {
        let ghost before = self.held();
        let mut board = self.board;
        let mut turn = self.turn;
        let mut castles = self.castles;
        let mut ep_square = self.ep_square;
        let mut halfmoves = self.halfmoves;
        let mut fullmoves = self.fullmoves;
        proof {
            use_type_invariant(&*self);
            lemma_play_well_formed(before, *m);
        }
        do_move(
            &mut board,
            &mut turn,
            &mut castles,
            &mut ep_square,
            &mut halfmoves,
            &mut fullmoves,
            m,
        );
        *self = Chess { board, turn, castles, ep_square, halfmoves, fullmoves };
    }

    fn maybe_ep_square(&self) -> (r: Option<Square>) {
        self.ep_square
    }

    fn castles(&self) -> (r: &Castles) {
        proof {
            use_type_invariant(self);
        }
        &self.castles
    }

    fn legal_moves(&self, moves: &mut MoveList) {
        proof {
            use_type_invariant(self);
            lemma_legal_moves(self.held());
        }
        self.parts().standard_moves(moves, Ghost(self.state()));
    }

    fn castling_moves(&self, side: CastlingSide, moves: &mut MoveList) {
        self.parts().standard_castling_moves(side, moves, Ghost(self.state()));
    }

    fn en_passant_moves(&self, moves: &mut MoveList) {
        self.parts().standard_en_passant_moves(moves, Ghost(self.state()));
    }

    fn capture_moves(&self, moves: &mut MoveList) {
        self.parts().standard_moves(moves, Ghost(self.state()));
        retain_captures(moves);
    }

    fn promotion_moves(&self, moves: &mut MoveList) {
        self.parts().standard_promotion_moves(moves, Ghost(self.state()));
    }

    fn san_candidates(&self, role: Role, to: Square, moves: &mut MoveList) {
        self.parts().standard_san_candidates(role, to, moves, Ghost(self.state()));
    }

    fn is_irreversible(&self, m: &Move) -> (r: bool) {
        is_irreversible_by(
            self.castles.castling_rights(),
            self.castles.has_side(self.turn),
            self.relevant_ep_square().is_some(),
            m,
        )
    }

    fn king_attackers(&self, square: Square, attacker: Color, occupied: Bitboard) -> (r: Bitboard) {
        movegen::king_attackers(Variant::Chess, &self.board, square, attacker, occupied)
    }

    fn has_insufficient_material(&self, color: Color) -> (r: bool) {
        is_chess_insufficient(&self.board, color)
    }

    fn is_variant_end(&self) -> (r: bool) {
        false
    }

    fn variant_outcome(&self) -> (r: Option<Outcome>) {
        None
    }
}

impl Default for Chess {
    fn default() -> (r: Chess)
        ensures
            r.held() == crate::reachable::initial(Variant::Chess),
    {
        Chess::new()
    }
}

} // verus!
