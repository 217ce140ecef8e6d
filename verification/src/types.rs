//! Roles, pieces and moves.

use vstd::prelude::*;
use crate::color::Color;
use crate::square::{File, Square};

verus! {

/// Piece types: `Pawn`, `Knight`, `Bishop`, `Rook`, `Queen`, `King`.
#[derive(Clone, Copy, Debug, PartialEq, Eq, Hash, PartialOrd, Ord, Structural)]
pub enum Role {
    Pawn,
    Knight,
    Bishop,
    Rook,
    Queen,
    King,
}

impl Role {
    /// The role named by an English piece letter of either case.
    pub open spec fn from_char_spec(ch: u8) -> Option<Role> {
        if ch == 80 || ch == 112 {
            Some(Role::Pawn)
        } else if ch == 78 || ch == 110 {
            Some(Role::Knight)
        } else if ch == 66 || ch == 98 {
            Some(Role::Bishop)
        } else if ch == 82 || ch == 114 {
            Some(Role::Rook)
        } else if ch == 81 || ch == 113 {
            Some(Role::Queen)
        } else if ch == 75 || ch == 107 {
            Some(Role::King)
        } else {
            None
        }
    }

    /// Reads an English piece letter of either case.
    pub fn from_char(ch: u8) -> (r: Option<Role>)
        ensures
            r == Role::from_char_spec(ch),
    {
        match ch {
            80 | 112 => Some(Role::Pawn),
            78 | 110 => Some(Role::Knight),
            66 | 98 => Some(Role::Bishop),
            82 | 114 => Some(Role::Rook),
            81 | 113 => Some(Role::Queen),
            75 | 107 => Some(Role::King),
            _ => None,
        }
    }

    /// The lower case English letter of the role.
    pub open spec fn char_spec(self) -> u8 {
        match self {
            Role::Pawn => 112,
            Role::Knight => 110,
            Role::Bishop => 98,
            Role::Rook => 114,
            Role::Queen => 113,
            Role::King => 107,
        }
    }

    pub fn char(self) -> (r: u8)
        ensures
            r == self.char_spec(),
    {
        match self {
            Role::Pawn => 112,
            Role::Knight => 110,
            Role::Bishop => 98,
            Role::Rook => 114,
            Role::Queen => 113,
            Role::King => 107,
        }
    }

    /// The upper case English letter of the role.
    pub fn upper_char(self) -> (r: u8)
        ensures
            r == self.char_spec() - 32,
    {
        self.char() - 32
    }

    /// The piece of this role and the given color.
    pub fn of(self, color: Color) -> (r: Piece)
        ensures
            r == (Piece { color, role: self }),
    {
        Piece { color, role: self }
    }
}

/// A piece with `Color` and `Role`.
#[derive(Clone, Copy, Debug, PartialEq, Eq, Hash, Structural)]
pub struct Piece {
    pub color: Color,
    pub role: Role,
}

/// The chess variants.
#[derive(Clone, Copy, Debug, PartialEq, Eq, Hash, Structural)]
pub enum Variant {
    Chess,
    Atomic,
    Antichess,
    KingOfTheHill,
    ThreeCheck,
    Crazyhouse,
    RacingKings,
    Horde,
}

/// `Standard` or `Chess960`.
#[derive(Clone, Copy, Debug, PartialEq, Eq, Hash, Structural)]
pub enum CastlingMode {
    Standard,
    Chess960,
}

/// `KingSide` (O-O) or `QueenSide` (O-O-O).
#[derive(Clone, Copy, Debug, PartialEq, Eq, Hash, Structural)]
pub enum CastlingSide {
    KingSide,
    QueenSide,
}

impl CastlingSide {
    pub fn is_queen_side(self) -> (r: bool)
        ensures
            r == (self == CastlingSide::QueenSide),
    {
        match self {
            CastlingSide::KingSide => false,
            CastlingSide::QueenSide => true,
        }
    }

    pub fn is_king_side(self) -> (r: bool)
        ensures
            r == (self == CastlingSide::KingSide),
    {
        !self.is_queen_side()
    }

    pub fn from_queen_side(queen_side: bool) -> (r: CastlingSide)
        ensures
            r == (if queen_side { CastlingSide::QueenSide } else { CastlingSide::KingSide }),
    {
        if queen_side {
            CastlingSide::QueenSide
        } else {
            CastlingSide::KingSide
        }
    }

    pub fn from_king_side(king_side: bool) -> (r: CastlingSide)
        ensures
            r == (if king_side { CastlingSide::KingSide } else { CastlingSide::QueenSide }),
    {
        if king_side {
            CastlingSide::KingSide
        } else {
            CastlingSide::QueenSide
        }
    }

    /// The file on which the king ends up: g for the king side, c for the
    /// queen side.
    pub open spec fn king_to_file_spec(self) -> File {
        match self {
            CastlingSide::KingSide => File::G,
            CastlingSide::QueenSide => File::C,
        }
    }

    /// The file on which the rook ends up: f for the king side, d for the
    /// queen side.
    pub open spec fn rook_to_file_spec(self) -> File {
        match self {
            CastlingSide::KingSide => File::F,
            CastlingSide::QueenSide => File::D,
        }
    }

    pub fn king_to_file(self) -> (r: File)
        ensures
            r == self.king_to_file_spec(),
    {
        match self {
            CastlingSide::KingSide => File::G,
            CastlingSide::QueenSide => File::C,
        }
    }

    pub fn rook_to_file(self) -> (r: File)
        ensures
            r == self.rook_to_file_spec(),
    {
        match self {
            CastlingSide::KingSide => File::F,
            CastlingSide::QueenSide => File::D,
        }
    }

    /// Index of the first rank of a color: 0 for white, 7 for black.
    pub open spec fn backrank_idx(color: Color) -> int {
        if color == Color::White {
            0
        } else {
            7
        }
    }

    /// The square on which the king of `color` ends up.
    pub open spec fn king_to_spec(self, color: Color) -> Square {
        Square::at(8 * Self::backrank_idx(color) + self.king_to_file_spec().idx())
    }

    /// The square on which the rook of `color` ends up.
    pub open spec fn rook_to_spec(self, color: Color) -> Square {
        Square::at(8 * Self::backrank_idx(color) + self.rook_to_file_spec().idx())
    }

    pub fn king_to(self, color: Color) -> (r: Square)
        ensures
            r == self.king_to_spec(color),
    {
        Square::from_coords(self.king_to_file(), color.backrank())
    }

    pub fn rook_to(self, color: Color) -> (r: Square)
        ensures
            r == self.rook_to_spec(color),
    {
        Square::from_coords(self.rook_to_file(), color.backrank())
    }
}

/// The number of checks the respective side needs to give in order to win
/// (in a game of Three-Check).
#[derive(Clone, Copy, Debug, PartialEq, Eq, Hash, Structural)]
pub struct RemainingChecks {
    pub white: u8,
    pub black: u8,
}

impl RemainingChecks {
    /// Three checks left for each side.
    pub fn new() -> (r: RemainingChecks)
        ensures
            r == (RemainingChecks { white: 3, black: 3 }),
    {
        RemainingChecks { white: 3, black: 3 }
    }

    pub open spec fn by_color_spec(self, color: Color) -> u8 {
        match color {
            Color::White => self.white,
            Color::Black => self.black,
        }
    }

    pub fn by_color(&self, color: Color) -> (r: u8)
        ensures
            r == self.by_color_spec(color),
    {
        match color {
            Color::White => self.white,
            Color::Black => self.black,
        }
    }

    /// One check less for `color`, but never less than none.
    pub open spec fn decrement_spec(self, color: Color) -> RemainingChecks {
        match color {
            Color::White => RemainingChecks {
                white: if self.white == 0 { 0u8 } else { (self.white - 1) as u8 },
                black: self.black,
            },
            Color::Black => RemainingChecks {
                white: self.white,
                black: if self.black == 0 { 0u8 } else { (self.black - 1) as u8 },
            },
        }
    }

    pub fn decrement(&mut self, color: Color)
        ensures
            *final(self) == old(self).decrement_spec(color),
    {
        match color {
            Color::White => {
                self.white = self.white.saturating_sub(1);
            },
            Color::Black => {
                self.black = self.black.saturating_sub(1);
            },
        }
    }
}

/// Information about a move.
#[derive(Clone, Copy, Debug, PartialEq, Eq, Hash, Structural)]
pub enum Move {
    Normal { role: Role, from: Square, capture: Option<Role>, to: Square, promotion: Option<Role> },
    EnPassant { from: Square, to: Square },
    Castle { king: Square, rook: Square },
    Put { role: Role, to: Square },
}

impl Move {
    /// The role of the piece that moves: the king for castling.
    pub open spec fn role_spec(self) -> Role {
        match self {
            Move::Normal { role, .. } => role,
            Move::EnPassant { .. } => Role::Pawn,
            Move::Castle { .. } => Role::King,
            Move::Put { role, .. } => role,
        }
    }

    pub fn role(&self) -> (r: Role)
        ensures
            r == self.role_spec(),
    {
        match *self {
            Move::Normal { role, .. } => role,
            Move::EnPassant { .. } => Role::Pawn,
            Move::Castle { .. } => Role::King,
            Move::Put { role, .. } => role,
        }
    }

    /// The origin square: the king's square for castling, none for drops.
    pub open spec fn from_spec(self) -> Option<Square> {
        match self {
            Move::Normal { from, .. } => Some(from),
            Move::EnPassant { from, .. } => Some(from),
            Move::Castle { king, .. } => Some(king),
            Move::Put { .. } => None,
        }
    }

    pub fn from(&self) -> (r: Option<Square>)
        ensures
            r == self.from_spec(),
    {
        match *self {
            Move::Normal { from, .. } => Some(from),
            Move::EnPassant { from, .. } => Some(from),
            Move::Castle { king, .. } => Some(king),
            Move::Put { .. } => None,
        }
    }

    /// The target square: the rook's square for castling.
    pub open spec fn to_spec(self) -> Square {
        match self {
            Move::Normal { to, .. } => to,
            Move::EnPassant { to, .. } => to,
            Move::Castle { rook, .. } => rook,
            Move::Put { to, .. } => to,
        }
    }

    pub fn to(&self) -> (r: Square)
        ensures
            r == self.to_spec(),
    {
        match *self {
            Move::Normal { to, .. } => to,
            Move::EnPassant { to, .. } => to,
            Move::Castle { rook, .. } => rook,
            Move::Put { to, .. } => to,
        }
    }

    /// The role of the captured piece, if any.
    pub open spec fn capture_spec(self) -> Option<Role> {
        match self {
            Move::Normal { capture, .. } => capture,
            Move::EnPassant { .. } => Some(Role::Pawn),
            _ => None,
        }
    }

    pub fn capture(&self) -> (r: Option<Role>)
        ensures
            r == self.capture_spec(),
    {
        match *self {
            Move::Normal { capture, .. } => capture,
            Move::EnPassant { .. } => Some(Role::Pawn),
            _ => None,
        }
    }

    pub open spec fn is_capture_spec(self) -> bool {
        self.capture_spec().is_some()
    }

    pub fn is_capture(&self) -> (r: bool)
        ensures
            r == self.is_capture_spec(),
    {
        match *self {
            Move::Normal { capture: Some(_), .. } => true,
            Move::EnPassant { .. } => true,
            _ => false,
        }
    }

    pub open spec fn is_en_passant_spec(self) -> bool {
        self is EnPassant
    }

    pub fn is_en_passant(&self) -> (r: bool)
        ensures
            r == self.is_en_passant_spec(),
    {
        match *self {
            Move::EnPassant { .. } => true,
            _ => false,
        }
    }

    /// True for the moves that reset the halfmove clock: pawn moves,
    /// captures and castling.
    pub open spec fn is_zeroing_spec(self) -> bool {
        match self {
            Move::Normal { role, capture, .. } => role == Role::Pawn || capture.is_some(),
            Move::EnPassant { .. } => true,
            Move::Castle { .. } => true,
            Move::Put { role, .. } => role == Role::Pawn,
        }
    }

    pub fn is_zeroing(&self) -> (r: bool)
        ensures
            r == self.is_zeroing_spec(),
    {
        match *self {
            Move::Normal { role: Role::Pawn, .. } => true,
            Move::Normal { capture: Some(_), .. } => true,
            Move::EnPassant { .. } => true,
            Move::Castle { .. } => true,
            Move::Put { role: Role::Pawn, .. } => true,
            _ => false,
        }
    }

    /// The side of a castling move: the king side if the rook stands on a
    /// higher file than the king.
    pub open spec fn castling_side_spec(self) -> Option<CastlingSide> {
        match self {
            Move::Castle { king, rook } => Some(
                if king.idx() % 8 < rook.idx() % 8 {
                    CastlingSide::KingSide
                } else {
                    CastlingSide::QueenSide
                },
            ),
            _ => None,
        }
    }

    pub fn castling_side(&self) -> (r: Option<CastlingSide>)
        ensures
            r == self.castling_side_spec(),
    {
        match *self {
            Move::Castle { king, rook } => Some(
                CastlingSide::from_king_side(king.file().index() < rook.file().index()),
            ),
            _ => None,
        }
    }

    pub open spec fn is_castle_spec(self) -> bool {
        self is Castle
    }

    pub fn is_castle(&self) -> (r: bool)
        ensures
            r == self.is_castle_spec(),
    {
        match *self {
            Move::Castle { .. } => true,
            _ => false,
        }
    }

    pub open spec fn promotion_spec(self) -> Option<Role> {
        match self {
            Move::Normal { promotion, .. } => promotion,
            _ => None,
        }
    }

    pub fn promotion(&self) -> (r: Option<Role>)
        ensures
            r == self.promotion_spec(),
    {
        match *self {
            Move::Normal { promotion, .. } => promotion,
            _ => None,
        }
    }

    pub open spec fn is_promotion_spec(self) -> bool {
        self.promotion_spec().is_some()
    }

    pub fn is_promotion(&self) -> (r: bool)
        ensures
            r == self.is_promotion_spec(),
    {
        match *self {
            Move::Normal { promotion: Some(_), .. } => true,
            _ => false,
        }
    }
}

impl Default for RemainingChecks {
    fn default() -> (r: RemainingChecks)
        ensures
            r == (RemainingChecks { white: 3, black: 3 }),
    {
        RemainingChecks::new()
    }
}

impl Default for CastlingMode {
    fn default() -> (r: CastlingMode)
        ensures
            r == CastlingMode::Standard,
    {
        CastlingMode::Standard
    }
}

} // verus!
