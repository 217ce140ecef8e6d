//! What is needed to set up a position, and the castling rights that a
//! position holds.

use vstd::prelude::*;
use crate::attacks;
use crate::attacks::between_spec;
use crate::bitboard::{bit, has_bit, lsb, msb, rank_bits, Bitboard};
use crate::board::{Board, BoardView};
use crate::color::Color;
use crate::material::Material;
use crate::square::Square;
use crate::types::{CastlingMode, CastlingSide, RemainingChecks, Role};

verus! {

/// What a setup holds, with the board as its nine sets of squares.
pub struct SetupView {
    pub board: BoardView,
    pub turn: Color,
    pub castling_rights: u64,
    pub ep_square: Option<Square>,
    pub pockets: Option<Material>,
    pub remaining_checks: Option<RemainingChecks>,
    pub halfmoves: u32,
    pub fullmoves: u32,
}

/// A not necessarily legal position.
pub trait Setup {
    /// What the setup holds.
    spec fn setup(&self) -> SetupView;

    /// Piece positions on the board.
    fn board(&self) -> (r: &Board)
        ensures
            r@ == self.setup().board,
    ;

    /// Pockets in chess variants like Crazyhouse.
    fn pockets(&self) -> (r: Option<Material>)
        ensures
            r == self.setup().pockets,
    ;

    /// Side to move.
    fn turn(&self) -> (r: Color)
        ensures
            r == self.setup().turn,
    ;

    /// Castling rights, as the set of the rooks that may still castle.
    fn castling_rights(&self) -> (r: Bitboard)
        ensures
            r.0 == self.setup().castling_rights,
    ;

    /// En passant target square.
    fn ep_square(&self) -> (r: Option<Square>)
        ensures
            r == self.setup().ep_square,
    ;

    /// Remaining checks in chess variants like Three-Check.
    fn remaining_checks(&self) -> (r: Option<RemainingChecks>)
        ensures
            r == self.setup().remaining_checks,
    ;

    /// Number of half-moves since the last capture or pawn move.
    fn halfmoves(&self) -> (r: u32)
        ensures
            r == self.setup().halfmoves,
    ;

    /// Current move number.
    fn fullmoves(&self) -> (r: u32)
        ensures
            r == self.setup().fullmoves,
    ;

    /// Squares occupied by the side to move.
    fn us(&self) -> (r: Bitboard)
        ensures
            r.0 == self.setup().board.by_color(self.setup().turn),
    {
        self.board().by_color(self.turn())
    }

    /// Squares occupied with the given piece type of the side to move.
    fn our(&self, role: Role) -> (r: Bitboard)
        ensures
            r.0 == self.setup().board.by_color(self.setup().turn) & self.setup().board.by_role(
                role,
            ),
    {
        Bitboard(self.us().0 & self.board().by_role(role).0)
    }

    /// Squares occupied by the opponent of the side to move.
    fn them(&self) -> (r: Bitboard)
        ensures
            r.0 == self.setup().board.by_color(self.setup().turn.other_spec()),
    {
        self.board().by_color(self.turn().other())
    }

    /// Squares occupied with the given piece type of the opponent.
    fn their(&self, role: Role) -> (r: Bitboard)
        ensures
            r.0 == self.setup().board.by_color(self.setup().turn.other_spec())
                & self.setup().board.by_role(role),
    {
        Bitboard(self.them().0 & self.board().by_role(role).0)
    }
}

/// A setup given part by part.
#[derive(Clone, Copy, Debug)]
pub struct PlainSetup {
    pub board: Board,
    pub turn: Color,
    pub castling_rights: Bitboard,
    pub ep_square: Option<Square>,
    pub pockets: Option<Material>,
    pub remaining_checks: Option<RemainingChecks>,
    pub halfmoves: u32,
    pub fullmoves: u32,
}

impl PlainSetup {
    /// The empty board with white to move.
    pub fn empty() -> (r: PlainSetup)
        ensures
            r.board@ == crate::board::empty_board(),
            r.turn == Color::White,
            r.castling_rights.0 == 0,
            r.ep_square.is_none(),
            r.pockets.is_none(),
            r.remaining_checks.is_none(),
            r.halfmoves == 0,
            r.fullmoves == 1,
    {
        PlainSetup {
            board: Board::empty(),
            turn: Color::White,
            castling_rights: Bitboard(0),
            ep_square: None,
            pockets: None,
            remaining_checks: None,
            halfmoves: 0,
            fullmoves: 1,
        }
    }
}

impl Setup for PlainSetup {
    open spec fn setup(&self) -> SetupView {
        SetupView {
            board: self.board@,
            turn: self.turn,
            castling_rights: self.castling_rights.0,
            ep_square: self.ep_square,
            pockets: self.pockets,
            remaining_checks: self.remaining_checks,
            halfmoves: self.halfmoves,
            fullmoves: self.fullmoves,
        }
    }

    fn board(&self) -> (r: &Board) {
        &self.board
    }

    fn pockets(&self) -> (r: Option<Material>) {
        self.pockets
    }

    fn turn(&self) -> (r: Color) {
        self.turn
    }

    fn castling_rights(&self) -> (r: Bitboard) {
        self.castling_rights
    }

    fn ep_square(&self) -> (r: Option<Square>) {
        self.ep_square
    }

    fn remaining_checks(&self) -> (r: Option<RemainingChecks>) {
        self.remaining_checks
    }

    fn halfmoves(&self) -> (r: u32) {
        self.halfmoves
    }

    fn fullmoves(&self) -> (r: u32) {
        self.fullmoves
    }
}

/// A setup with the other side to move and without an en passant square.
pub struct SwapTurn<S: Setup>(pub S);

impl<S: Setup> Setup for SwapTurn<S> {
    open spec fn setup(&self) -> SetupView {
        SetupView {
            turn: self.0.setup().turn.other_spec(),
            ep_square: None,
            ..self.0.setup()
        }
    }

    fn board(&self) -> (r: &Board) {
        self.0.board()
    }

    fn pockets(&self) -> (r: Option<Material>) {
        self.0.pockets()
    }

    fn turn(&self) -> (r: Color) {
        self.0.turn().other()
    }

    fn castling_rights(&self) -> (r: Bitboard) {
        self.0.castling_rights()
    }

    fn ep_square(&self) -> (r: Option<Square>) {
        None
    }

    fn remaining_checks(&self) -> (r: Option<RemainingChecks>) {
        self.0.remaining_checks()
    }

    fn halfmoves(&self) -> (r: u32) {
        self.0.halfmoves()
    }

    fn fullmoves(&self) -> (r: u32) {
        self.0.fullmoves()
    }
}

/// The set that holds the given square, or no square.
pub open spec fn opt_bit(sq: Option<Square>) -> u64 {
    match sq {
        Some(s) => bit(s.idx()),
        None => 0,
    }
}

/// The square, unless it is `sq`.
pub open spec fn unless(slot: Option<Square>, sq: Square) -> Option<Square> {
    if slot == Some(sq) {
        None
    } else {
        slot
    }
}

/// The square, unless it is in the set.
pub open spec fn unless_in(slot: Option<Square>, set: u64) -> Option<Square> {
    match slot {
        Some(sq) => if has_bit(set, sq.idx()) {
            None
        } else {
            slot
        },
        None => None,
    }
}

/// The rook with which `color` may castle on `side` in a setup: the king
/// stands on its back rank and not in a corner, the rook is among the
/// castling rights, of that color and on that rank, and it is the outermost
/// such rook on its side of the king.
pub open spec fn castling_rook(
    board: BoardView,
    rights: u64,
    color: Color,
    side: CastlingSide,
) -> Option<Square> {
    let back = CastlingSide::backrank_idx(color);
    match board.king_of(color) {
        None => None,
        Some(king) => {
            let candidates = rights & board.rooks & board.by_color(color) & rank_bits(back);
            if king.idx() % 8 == 0 || king.idx() % 8 == 7 || king.idx() / 8 != back || candidates
                == 0 {
                None
            } else if side == CastlingSide::QueenSide {
                if lsb(candidates) % 8 < king.idx() % 8 {
                    Some(Square::at(lsb(candidates)))
                } else {
                    None
                }
            } else {
                if king.idx() % 8 < msb(candidates) % 8 {
                    Some(Square::at(msb(candidates)))
                } else {
                    None
                }
            }
        },
    }
}

/// The squares that must be empty for castling: those that king and rook
/// pass or reach, but for the ones they start from.
pub open spec fn castling_path(king: int, rook: int, color: Color, side: CastlingSide) -> u64 {
    let rto = side.rook_to_spec(color).idx();
    let kto = side.king_to_spec(color).idx();
    ((between_spec(rook, rto) | bit(rto)) | (between_spec(king, kto) | bit(kto))) & !bit(king)
        & !bit(rook)
}

/// The path of `color` on `side` in a setup, and the empty set without a
/// castling rook.
pub open spec fn setup_path(board: BoardView, rights: u64, color: Color, side: CastlingSide) -> u64 {
    match (board.king_of(color), castling_rook(board, rights, color, side)) {
        (Some(king), Some(rook)) => castling_path(king.idx(), rook.idx(), color, side),
        _ => 0,
    }
}

/// True if castling of `color` on `side` in a setup does not start from
/// the squares of standard chess.
pub open spec fn unusual_castling(
    board: BoardView,
    rights: u64,
    color: Color,
    side: CastlingSide,
) -> bool {
    match (board.king_of(color), castling_rook(board, rights, color, side)) {
        (Some(king), Some(rook)) => king.idx() % 8 != 4 || rook.idx() % 8 != (if side
            == CastlingSide::QueenSide {
            0int
        } else {
            7int
        }),
        _ => false,
    }
}

/// The castling mode that a setup shows: Chess960 if some castling starts
/// from unusual squares.
pub open spec fn detected_mode(board: BoardView, rights: u64) -> CastlingMode {
    if unusual_castling(board, rights, Color::White, CastlingSide::KingSide) || unusual_castling(
        board,
        rights,
        Color::White,
        CastlingSide::QueenSide,
    ) || unusual_castling(board, rights, Color::Black, CastlingSide::KingSide)
        || unusual_castling(board, rights, Color::Black, CastlingSide::QueenSide) {
        CastlingMode::Chess960
    } else {
        CastlingMode::Standard
    }
}

/// The castling rights that a setup gives, in the given mode or else in the
/// mode that the setup shows.
pub open spec fn castles_from_setup(
    board: BoardView,
    rights: u64,
    mode: Option<CastlingMode>,
) -> Castles {
    Castles {
        mode: match mode {
            Some(m) => m,
            None => detected_mode(board, rights),
        },
        white_king_side: castling_rook(board, rights, Color::White, CastlingSide::KingSide),
        white_queen_side: castling_rook(board, rights, Color::White, CastlingSide::QueenSide),
        black_king_side: castling_rook(board, rights, Color::Black, CastlingSide::KingSide),
        black_queen_side: castling_rook(board, rights, Color::Black, CastlingSide::QueenSide),
        white_king_path: Bitboard(
            setup_path(board, rights, Color::White, CastlingSide::KingSide),
        ),
        white_queen_path: Bitboard(
            setup_path(board, rights, Color::White, CastlingSide::QueenSide),
        ),
        black_king_path: Bitboard(
            setup_path(board, rights, Color::Black, CastlingSide::KingSide),
        ),
        black_queen_path: Bitboard(
            setup_path(board, rights, Color::Black, CastlingSide::QueenSide),
        ),
    }
}

/// Castling paths and unmoved rooks.
#[derive(Clone, Copy, Debug, PartialEq, Eq, Hash, Structural)]
pub struct Castles {
    pub mode: CastlingMode,
    pub white_king_side: Option<Square>,
    pub white_queen_side: Option<Square>,
    pub black_king_side: Option<Square>,
    pub black_queen_side: Option<Square>,
    pub white_king_path: Bitboard,
    pub white_queen_path: Bitboard,
    pub black_king_path: Bitboard,
    pub black_queen_path: Bitboard,
}

impl Castles {
    /// The castling rights of the standard starting position.
    pub open spec fn standard() -> Castles {
        Castles {
            mode: CastlingMode::Standard,
            white_king_side: Some(Square::at(7)),
            white_queen_side: Some(Square::at(0)),
            black_king_side: Some(Square::at(63)),
            black_queen_side: Some(Square::at(56)),
            white_king_path: Bitboard(0x0000_0000_0000_0060),
            white_queen_path: Bitboard(0x0000_0000_0000_000e),
            black_king_path: Bitboard(0x6000_0000_0000_0000),
            black_queen_path: Bitboard(0x0e00_0000_0000_0000),
        }
    }

    /// No castling rights.
    pub open spec fn none(mode: CastlingMode) -> Castles {
        Castles {
            mode,
            white_king_side: None,
            white_queen_side: None,
            black_king_side: None,
            black_queen_side: None,
            white_king_path: Bitboard(0),
            white_queen_path: Bitboard(0),
            black_king_path: Bitboard(0),
            black_queen_path: Bitboard(0),
        }
    }

    pub open spec fn rook_spec(self, color: Color, side: CastlingSide) -> Option<Square> {
        match (color, side) {
            (Color::White, CastlingSide::KingSide) => self.white_king_side,
            (Color::White, CastlingSide::QueenSide) => self.white_queen_side,
            (Color::Black, CastlingSide::KingSide) => self.black_king_side,
            (Color::Black, CastlingSide::QueenSide) => self.black_queen_side,
        }
    }

    pub open spec fn path_spec(self, color: Color, side: CastlingSide) -> Bitboard {
        match (color, side) {
            (Color::White, CastlingSide::KingSide) => self.white_king_path,
            (Color::White, CastlingSide::QueenSide) => self.white_queen_path,
            (Color::Black, CastlingSide::KingSide) => self.black_king_path,
            (Color::Black, CastlingSide::QueenSide) => self.black_queen_path,
        }
    }

    /// The set of the rooks that may still castle.
    pub open spec fn rights_spec(self) -> u64 {
        opt_bit(self.white_king_side) | opt_bit(self.white_queen_side) | opt_bit(
            self.black_king_side,
        ) | opt_bit(self.black_queen_side)
    }

    pub open spec fn has_side_spec(self, color: Color) -> bool {
        self.rook_spec(color, CastlingSide::KingSide).is_some() || self.rook_spec(
            color,
            CastlingSide::QueenSide,
        ).is_some()
    }

    /// The rights without those of `color`.
    pub open spec fn without_side(self, color: Color) -> Castles {
        match color {
            Color::White => Castles { white_king_side: None, white_queen_side: None, ..self },
            Color::Black => Castles { black_king_side: None, black_queen_side: None, ..self },
        }
    }

    /// The rights without the one that goes with a rook on `sq`.
    pub open spec fn without_rook(self, sq: Square) -> Castles {
        Castles {
            white_king_side: unless(self.white_king_side, sq),
            white_queen_side: unless(self.white_queen_side, sq),
            black_king_side: unless(self.black_king_side, sq),
            black_queen_side: unless(self.black_queen_side, sq),
            ..self
        }
    }

    /// The rights without those that go with a rook on a square of `set`.
    pub open spec fn without_rooks(self, set: u64) -> Castles {
        Castles {
            white_king_side: unless_in(self.white_king_side, set),
            white_queen_side: unless_in(self.white_queen_side, set),
            black_king_side: unless_in(self.black_king_side, set),
            black_queen_side: unless_in(self.black_queen_side, set),
            ..self
        }
    }

    /// The castling rights of the standard starting position.
    pub fn new() -> (r: Castles)
        ensures
            r == Castles::standard(),
    {
        Castles {
            mode: CastlingMode::Standard,
            white_king_side: Square::new(7),
            white_queen_side: Square::new(0),
            black_king_side: Square::new(63),
            black_queen_side: Square::new(56),
            white_king_path: Bitboard(0x0000_0000_0000_0060),
            white_queen_path: Bitboard(0x0000_0000_0000_000e),
            black_king_path: Bitboard(0x6000_0000_0000_0000),
            black_queen_path: Bitboard(0x0e00_0000_0000_0000),
        }
    }

    /// No castling rights.
    pub fn empty(mode: CastlingMode) -> (r: Castles)
        ensures
            r == Castles::none(mode),
    {
        Castles {
            mode,
            white_king_side: None,
            white_queen_side: None,
            black_king_side: None,
            black_queen_side: None,
            white_king_path: Bitboard(0),
            white_queen_path: Bitboard(0),
            black_king_path: Bitboard(0),
            black_queen_path: Bitboard(0),
        }
    }

    /// The rook with which `color` may castle on `side` in a setup, and
    /// the squares that must be empty for it.
    fn side_from_setup(
        board: &Board,
        rights: Bitboard,
        color: Color,
        side: CastlingSide,
    ) -> (r: (Option<Square>, Bitboard, bool))
        ensures
            r.0 == castling_rook(board@, rights.0, color, side),
            r.1.0 == setup_path(board@, rights.0, color, side),
            r.2 == unusual_castling(board@, rights.0, color, side),
    {
        let none = (None, Bitboard(0), false);
        let king = match board.king_of(color) {
            Some(king) => king,
            None => {
                return none;
            },
        };
        let back = color.backrank();
        assert(back.idx() == CastlingSide::backrank_idx(color));
        let candidates = Bitboard(
            rights.0 & board.rooks().0 & board.by_color(color).0 & Bitboard::rank(back).0,
        );
        let king_file = king.file().index();
        if king_file == 0 || king_file == 7 || king.rank().index() != back.index() {
            return none;
        }
        let rook = match side {
            CastlingSide::QueenSide => candidates.first(),
            CastlingSide::KingSide => candidates.last(),
        };
        let rook = match rook {
            Some(rook) => rook,
            None => {
                return none;
            },
        };
        proof {
            broadcast use Square::lemma_idx_at;

            if side == CastlingSide::QueenSide {
                crate::bitboard::lemma_lsb(candidates.0);
            }
        }
        let rook_file = rook.file().index();
        let outside = match side {
            CastlingSide::QueenSide => rook_file < king_file,
            CastlingSide::KingSide => king_file < rook_file,
        };
        if !outside {
            return none;
        }
        let rto = side.rook_to(color);
        let kto = side.king_to(color);
        let path = Bitboard(
            ((attacks::between(rook, rto).0 | (1u64 << rto.index())) | (attacks::between(
                king,
                kto,
            ).0 | (1u64 << kto.index()))) & !(1u64 << king.index()) & !(1u64 << rook.index()),
        );
        let home: u8 = match side {
            CastlingSide::QueenSide => 0,
            CastlingSide::KingSide => 7,
        };
        (Some(rook), path, king_file != 4 || rook_file != home)
    }

    /// Reads the castling rights of a setup. The result is an error if
    /// some of the rights of the setup do not go with a king on its back
    /// rank and a rook of its color beside it; it then still holds the
    /// rights that do.
    pub fn from_setup_with_mode<S: Setup>(setup: &S, mode: Option<CastlingMode>) -> (r: Result<
        Castles,
        Castles,
    >)
        ensures
            r == (if castles_from_setup(
                setup.setup().board,
                setup.setup().castling_rights,
                mode,
            ).rights_spec() == setup.setup().castling_rights {
                Ok::<Castles, Castles>(
                    castles_from_setup(setup.setup().board, setup.setup().castling_rights, mode),
                )
            } else {
                Err::<Castles, Castles>(
                    castles_from_setup(setup.setup().board, setup.setup().castling_rights, mode),
                )
            }),
    {
        let board = setup.board();
        let rights = setup.castling_rights();
        let wk = Castles::side_from_setup(board, rights, Color::White, CastlingSide::KingSide);
        let wq = Castles::side_from_setup(board, rights, Color::White, CastlingSide::QueenSide);
        let bk = Castles::side_from_setup(board, rights, Color::Black, CastlingSide::KingSide);
        let bq = Castles::side_from_setup(board, rights, Color::Black, CastlingSide::QueenSide);
        let detected = if wk.2 || wq.2 || bk.2 || bq.2 {
            CastlingMode::Chess960
        } else {
            CastlingMode::Standard
        };
        let castles = Castles {
            mode: match mode {
                Some(m) => m,
                None => detected,
            },
            white_king_side: wk.0,
            white_queen_side: wq.0,
            black_king_side: bk.0,
            black_queen_side: bq.0,
            white_king_path: wk.1,
            white_queen_path: wq.1,
            black_king_path: bk.1,
            black_queen_path: bq.1,
        };
        if castles.castling_rights().0 == rights.0 {
            Ok(castles)
        } else {
            Err(castles)
        }
    }

    /// Reads the castling rights of a setup, in the mode that it shows.
    pub fn from_setup<S: Setup>(setup: &S) -> (r: Result<Castles, Castles>)
        ensures
            r == (if castles_from_setup(
                setup.setup().board,
                setup.setup().castling_rights,
                None,
            ).rights_spec() == setup.setup().castling_rights {
                Ok::<Castles, Castles>(
                    castles_from_setup(setup.setup().board, setup.setup().castling_rights, None),
                )
            } else {
                Err::<Castles, Castles>(
                    castles_from_setup(setup.setup().board, setup.setup().castling_rights, None),
                )
            }),
    {
        Castles::from_setup_with_mode(setup, None)
    }

    pub fn mode(&self) -> (r: CastlingMode)
        ensures
            r == self.mode,
    {
        self.mode
    }

    pub fn rook(&self, color: Color, side: CastlingSide) -> (r: Option<Square>)
        ensures
            r == self.rook_spec(color, side),
    {
        match (color, side) {
            (Color::White, CastlingSide::KingSide) => self.white_king_side,
            (Color::White, CastlingSide::QueenSide) => self.white_queen_side,
            (Color::Black, CastlingSide::KingSide) => self.black_king_side,
            (Color::Black, CastlingSide::QueenSide) => self.black_queen_side,
        }
    }

    /// The squares that must be empty for `color` to castle on `side`.
    pub fn path(&self, color: Color, side: CastlingSide) -> (r: Bitboard)
        ensures
            r == self.path_spec(color, side),
    {
        match (color, side) {
            (Color::White, CastlingSide::KingSide) => self.white_king_path,
            (Color::White, CastlingSide::QueenSide) => self.white_queen_path,
            (Color::Black, CastlingSide::KingSide) => self.black_king_path,
            (Color::Black, CastlingSide::QueenSide) => self.black_queen_path,
        }
    }

    pub fn has(&self, color: Color, side: CastlingSide) -> (r: bool)
        ensures
            r == self.rook_spec(color, side).is_some(),
    {
        self.rook(color, side).is_some()
    }

    pub fn has_side(&self, color: Color) -> (r: bool)
        ensures
            r == self.has_side_spec(color),
    {
        self.has(color, CastlingSide::KingSide) || self.has(color, CastlingSide::QueenSide)
    }

    pub fn any(&self) -> (r: bool)
        ensures
            r == (self.has_side_spec(Color::White) || self.has_side_spec(Color::Black)),
    {
        self.has_side(Color::White) || self.has_side(Color::Black)
    }

    pub fn is_empty(&self) -> (r: bool)
        ensures
            r == !(self.has_side_spec(Color::White) || self.has_side_spec(Color::Black)),
    {
        !self.any()
    }

    /// The set of the rooks that may still castle.
    pub fn castling_rights(&self) -> (r: Bitboard)
        ensures
            r.0 == self.rights_spec(),
    {
        Bitboard(
            Castles::slot_bit(self.white_king_side) | Castles::slot_bit(self.white_queen_side)
                | Castles::slot_bit(self.black_king_side) | Castles::slot_bit(
                self.black_queen_side,
            ),
        )
    }

    fn slot_bit(slot: Option<Square>) -> (r: u64)
        ensures
            r == opt_bit(slot),
    {
        match slot {
            Some(s) => 1u64 << s.index(),
            None => 0,
        }
    }

    fn slot_unless(slot: Option<Square>, sq: Square) -> (r: Option<Square>)
        ensures
            r == unless(slot, sq),
    {
        match slot {
            Some(s) => if s == sq {
                None
            } else {
                slot
            },
            None => None,
        }
    }

    /// Gives up the right that goes with a rook on `sq`.
    pub fn discard_rook(&mut self, sq: Square)
        ensures
            *final(self) == old(self).without_rook(sq),
    {
        self.white_king_side = Castles::slot_unless(self.white_king_side, sq);
        self.white_queen_side = Castles::slot_unless(self.white_queen_side, sq);
        self.black_king_side = Castles::slot_unless(self.black_king_side, sq);
        self.black_queen_side = Castles::slot_unless(self.black_queen_side, sq);
    }

    fn slot_unless_in(slot: Option<Square>, set: Bitboard) -> (r: Option<Square>)
        ensures
            r == unless_in(slot, set.0),
    {
        match slot {
            Some(s) => if set.contains(s) {
                None
            } else {
                slot
            },
            None => None,
        }
    }

    /// Gives up the rights that go with a rook on a square of `set`.
    pub fn discard_rooks(&mut self, set: Bitboard)
        ensures
            *final(self) == old(self).without_rooks(set.0),
    {
        self.white_king_side = Castles::slot_unless_in(self.white_king_side, set);
        self.white_queen_side = Castles::slot_unless_in(self.white_queen_side, set);
        self.black_king_side = Castles::slot_unless_in(self.black_king_side, set);
        self.black_queen_side = Castles::slot_unless_in(self.black_queen_side, set);
    }

    /// Gives up the rights of `color`.
    pub fn discard_side(&mut self, color: Color)
        ensures
            *final(self) == old(self).without_side(color),
    {
        match color {
            Color::White => {
                self.white_king_side = None;
                self.white_queen_side = None;
            },
            Color::Black => {
                self.black_king_side = None;
                self.black_queen_side = None;
            },
        }
    }
}

impl Default for Castles {
    fn default() -> (r: Castles)
        ensures
            r == Castles::standard(),
    {
        Castles::new()
    }
}

} // verus!
