//! Piece positions on a board.

use vstd::prelude::*;
use crate::attacks;
use crate::attacks::{
    bishop_attacks_spec, king_attacks_spec, knight_attacks_spec, pawn_attacks_spec,
    rook_attacks_spec,
};
use crate::bitboard::{bit, has_bit, lsb, Bitboard};
use crate::color::Color;
use crate::square::Square;
use crate::types::{Piece, Role};

verus! {

/// What a board holds, as nine sets of squares: one for each role, one for
/// each color, and one for the pieces that came from a promotion.
pub struct BoardView {
    pub pawns: u64,
    pub knights: u64,
    pub bishops: u64,
    pub rooks: u64,
    pub queens: u64,
    pub kings: u64,
    pub white: u64,
    pub black: u64,
    pub promoted: u64,
}

impl BoardView {
    pub open spec fn occupied(self) -> u64 {
        self.white | self.black
    }

    pub open spec fn by_role(self, role: Role) -> u64 {
        match role {
            Role::Pawn => self.pawns,
            Role::Knight => self.knights,
            Role::Bishop => self.bishops,
            Role::Rook => self.rooks,
            Role::Queen => self.queens,
            Role::King => self.kings,
        }
    }

    pub open spec fn by_color(self, color: Color) -> u64 {
        match color {
            Color::White => self.white,
            Color::Black => self.black,
        }
    }

    pub open spec fn by_piece(self, piece: Piece) -> u64 {
        self.by_color(piece.color) & self.by_role(piece.role)
    }

    /// The squares of all roles together.
    pub open spec fn all_roles(self) -> u64 {
        self.pawns | self.knights | self.bishops | self.rooks | self.queens | self.kings
    }

    /// No square holds two colors or two roles, a square has a role exactly
    /// if it has a color, and only occupied squares are marked as promoted.
    pub open spec fn wf(self) -> bool {
        &&& self.white & self.black == 0
        &&& self.all_roles() == self.white | self.black
        &&& self.pawns & self.knights == 0
        &&& self.pawns & self.bishops == 0
        &&& self.pawns & self.rooks == 0
        &&& self.pawns & self.queens == 0
        &&& self.pawns & self.kings == 0
        &&& self.knights & self.bishops == 0
        &&& self.knights & self.rooks == 0
        &&& self.knights & self.queens == 0
        &&& self.knights & self.kings == 0
        &&& self.bishops & self.rooks == 0
        &&& self.bishops & self.queens == 0
        &&& self.bishops & self.kings == 0
        &&& self.rooks & self.queens == 0
        &&& self.rooks & self.kings == 0
        &&& self.queens & self.kings == 0
        &&& self.promoted & !(self.white | self.black) == 0
    }

    /// The role of the piece on the square with index `i`.
    pub open spec fn role_at(self, i: int) -> Option<Role> {
        if has_bit(self.pawns, i) {
            Some(Role::Pawn)
        } else if has_bit(self.knights, i) {
            Some(Role::Knight)
        } else if has_bit(self.bishops, i) {
            Some(Role::Bishop)
        } else if has_bit(self.rooks, i) {
            Some(Role::Rook)
        } else if has_bit(self.queens, i) {
            Some(Role::Queen)
        } else if has_bit(self.kings, i) {
            Some(Role::King)
        } else {
            None
        }
    }

    /// The color of the piece on the square with index `i`.
    pub open spec fn color_at(self, i: int) -> Option<Color> {
        if has_bit(self.white, i) {
            Some(Color::White)
        } else if has_bit(self.black, i) {
            Some(Color::Black)
        } else {
            None
        }
    }

    /// The piece on the square with index `i`.
    pub open spec fn piece_at(self, i: int) -> Option<Piece> {
        match (self.color_at(i), self.role_at(i)) {
            (Some(color), Some(role)) => Some(Piece { color, role }),
            _ => None,
        }
    }

    /// The board with the squares of `mask` emptied, and then `role`,
    /// `color` and `promoted` added to the sets that they name.
    pub open spec fn patched(
        self,
        mask: u64,
        role: Option<Role>,
        color: Option<Color>,
        promoted: bool,
    ) -> BoardView {
        BoardView {
            pawns: (self.pawns & !mask) | (if role == Some(Role::Pawn) { mask } else { 0 }),
            knights: (self.knights & !mask) | (if role == Some(Role::Knight) { mask } else { 0 }),
            bishops: (self.bishops & !mask) | (if role == Some(Role::Bishop) { mask } else { 0 }),
            rooks: (self.rooks & !mask) | (if role == Some(Role::Rook) { mask } else { 0 }),
            queens: (self.queens & !mask) | (if role == Some(Role::Queen) { mask } else { 0 }),
            kings: (self.kings & !mask) | (if role == Some(Role::King) { mask } else { 0 }),
            white: (self.white & !mask) | (if color == Some(Color::White) { mask } else { 0 }),
            black: (self.black & !mask) | (if color == Some(Color::Black) { mask } else { 0 }),
            promoted: (self.promoted & !mask) | (if promoted { mask } else { 0 }),
        }
    }

    /// The board without the piece on the square with index `i`.
    pub open spec fn without(self, i: int) -> BoardView {
        self.patched(bit(i), None, None, false)
    }

    /// The board with `piece` on the square with index `i`, in place of
    /// what stood there.
    pub open spec fn with(self, i: int, piece: Piece, promoted: bool) -> BoardView {
        self.patched(bit(i), Some(piece.role), Some(piece.color), promoted)
    }

    /// The lowest square with a king of `color`.
    pub open spec fn king_of(self, color: Color) -> Option<Square> {
        let kings = self.by_color(color) & self.kings;
        if kings == 0 {
            None
        } else {
            Some(Square::at(lsb(kings)))
        }
    }

    /// The pieces of `attacker` that attack the square with index `i`, with
    /// the given squares occupied.
    pub open spec fn attacks_to(self, i: int, attacker: Color, occupied: u64) -> u64 {
        self.by_color(attacker) & ((rook_attacks_spec(i, occupied) & (self.rooks | self.queens))
            | (bishop_attacks_spec(i, occupied) & (self.bishops | self.queens)) | (
        knight_attacks_spec(i) & self.knights) | (king_attacks_spec(i) & self.kings) | (
        pawn_attacks_spec(attacker.other_spec(), i) & self.pawns))
    }

    /// Emptying some squares and putting one piece on them keeps a board
    /// well formed.
    pub proof fn lemma_patched_wf(
        self,
        mask: u64,
        role: Option<Role>,
        color: Option<Color>,
        promoted: bool,
    )
        requires
            self.wf(),
            role.is_some() == color.is_some(),
            promoted ==> role.is_some(),
        ensures
            self.patched(mask, role, color, promoted).wf(),
    {
        let zero = 0u64;
        match role {
            Some(Role::Pawn) => {},
            Some(Role::Knight) => {},
            Some(Role::Bishop) => {},
            Some(Role::Rook) => {},
            Some(Role::Queen) => {},
            Some(Role::King) => {},
            None => {},
        }
        match color {
            Some(Color::White) => {},
            Some(Color::Black) => {},
            None => {},
        }
        lemma_patch_bits(
            self.pawns,
            self.knights,
            self.bishops,
            self.rooks,
            self.queens,
            self.kings,
            self.white,
            self.black,
            self.promoted,
            mask,
            if role == Some(Role::Pawn) { mask } else { zero },
            if role == Some(Role::Knight) { mask } else { zero },
            if role == Some(Role::Bishop) { mask } else { zero },
            if role == Some(Role::Rook) { mask } else { zero },
            if role == Some(Role::Queen) { mask } else { zero },
            if role == Some(Role::King) { mask } else { zero },
            if color == Some(Color::White) { mask } else { zero },
            if color == Some(Color::Black) { mask } else { zero },
            if promoted { mask } else { zero },
        );
    }
}

/// The fact about bits behind `lemma_patched_wf`.
proof fn lemma_patch_bits(
    p: u64,
    n: u64,
    b: u64,
    r: u64,
    q: u64,
    k: u64,
    w: u64,
    l: u64,
    o: u64,
    m: u64,
    sp: u64,
    sn: u64,
    sb: u64,
    sr: u64,
    sq: u64,
    sk: u64,
    sw: u64,
    sl: u64,
    so: u64,
)
    by (bit_vector)
    requires
        w & l == 0,
        p | n | b | r | q | k == w | l,
        p & n == 0,
        p & b == 0,
        p & r == 0,
        p & q == 0,
        p & k == 0,
        n & b == 0,
        n & r == 0,
        n & q == 0,
        n & k == 0,
        b & r == 0,
        b & q == 0,
        b & k == 0,
        r & q == 0,
        r & k == 0,
        q & k == 0,
        o & !(w | l) == 0,
        (sp == 0 && sn == 0 && sb == 0 && sr == 0 && sq == 0 && sk == 0 && sw == 0 && sl == 0 && so
            == 0) || ((sw == m && sl == 0 || sw == 0 && sl == m) && (so == 0 || so == m) && (sp == m
            && sn == 0 && sb == 0 && sr == 0 && sq == 0 && sk == 0 || sp == 0 && sn == m && sb == 0
            && sr == 0 && sq == 0 && sk == 0 || sp == 0 && sn == 0 && sb == m && sr == 0 && sq == 0
            && sk == 0 || sp == 0 && sn == 0 && sb == 0 && sr == m && sq == 0 && sk == 0 || sp == 0
            && sn == 0 && sb == 0 && sr == 0 && sq == m && sk == 0 || sp == 0 && sn == 0 && sb == 0
            && sr == 0 && sq == 0 && sk == m)),
    ensures
        ((w & !m) | sw) & ((l & !m) | sl) == 0,
        ((p & !m) | sp) | ((n & !m) | sn) | ((b & !m) | sb) | ((r & !m) | sr) | ((q & !m) | sq) | ((
        k & !m) | sk) == ((w & !m) | sw) | ((l & !m) | sl),
        ((p & !m) | sp) & ((n & !m) | sn) == 0,
        ((p & !m) | sp) & ((b & !m) | sb) == 0,
        ((p & !m) | sp) & ((r & !m) | sr) == 0,
        ((p & !m) | sp) & ((q & !m) | sq) == 0,
        ((p & !m) | sp) & ((k & !m) | sk) == 0,
        ((n & !m) | sn) & ((b & !m) | sb) == 0,
        ((n & !m) | sn) & ((r & !m) | sr) == 0,
        ((n & !m) | sn) & ((q & !m) | sq) == 0,
        ((n & !m) | sn) & ((k & !m) | sk) == 0,
        ((b & !m) | sb) & ((r & !m) | sr) == 0,
        ((b & !m) | sb) & ((q & !m) | sq) == 0,
        ((b & !m) | sb) & ((k & !m) | sk) == 0,
        ((r & !m) | sr) & ((q & !m) | sq) == 0,
        ((r & !m) | sr) & ((k & !m) | sk) == 0,
        ((q & !m) | sq) & ((k & !m) | sk) == 0,
        ((o & !m) | so) & !(((w & !m) | sw) | ((l & !m) | sl)) == 0,
{
}

/// The starting position of standard chess.
pub open spec fn standard_board() -> BoardView {
    BoardView {
        pawns: 0x00ff_0000_0000_ff00,
        knights: 0x4200_0000_0000_0042,
        bishops: 0x2400_0000_0000_0024,
        rooks: 0x8100_0000_0000_0081,
        queens: 0x0800_0000_0000_0008,
        kings: 0x1000_0000_0000_0010,
        white: 0xffff,
        black: 0xffff_0000_0000_0000,
        promoted: 0,
    }
}

/// The board without any piece.
pub open spec fn empty_board() -> BoardView {
    BoardView {
        pawns: 0,
        knights: 0,
        bishops: 0,
        rooks: 0,
        queens: 0,
        kings: 0,
        white: 0,
        black: 0,
        promoted: 0,
    }
}

/// The starting position of Racing Kings.
pub open spec fn racing_kings_board() -> BoardView {
    BoardView {
        pawns: 0,
        knights: 0x1818,
        bishops: 0x2424,
        rooks: 0x4242,
        queens: 0x0081,
        kings: 0x8100,
        white: 0xf0f0,
        black: 0x0f0f,
        promoted: 0,
    }
}

/// The starting position of Horde, with the white pawns as the horde.
pub open spec fn horde_board() -> BoardView {
    BoardView {
        pawns: 0x00ff_0066_ffff_ffff,
        knights: 0x4200_0000_0000_0000,
        bishops: 0x2400_0000_0000_0000,
        rooks: 0x8100_0000_0000_0000,
        queens: 0x0800_0000_0000_0000,
        kings: 0x1000_0000_0000_0000,
        white: 0x0000_0066_ffff_ffff,
        black: 0xffff_0000_0000_0000,
        promoted: 0,
    }
}

/// The named starting boards are well formed.
pub proof fn lemma_start_boards_wf()
    ensures
        standard_board().wf(),
        empty_board().wf(),
        racing_kings_board().wf(),
        horde_board().wf(),
{
    assert(standard_board().wf()) by (bit_vector);
    assert(empty_board().wf()) by (bit_vector);
    assert(racing_kings_board().wf()) by (bit_vector);
    assert(horde_board().wf()) by (bit_vector);
}

/// Piece positions on a board.
#[derive(Clone, Copy, Debug, PartialEq, Eq, Hash)]
pub struct Board {
    pawns: Bitboard,
    knights: Bitboard,
    bishops: Bitboard,
    rooks: Bitboard,
    queens: Bitboard,
    kings: Bitboard,
    white: Bitboard,
    black: Bitboard,
    promoted: Bitboard,
}

impl View for Board {
    type V = BoardView;

    closed spec fn view(&self) -> BoardView {
        BoardView {
            pawns: self.pawns.0,
            knights: self.knights.0,
            bishops: self.bishops.0,
            rooks: self.rooks.0,
            queens: self.queens.0,
            kings: self.kings.0,
            white: self.white.0,
            black: self.black.0,
            promoted: self.promoted.0,
        }
    }
}

impl Board {
    #[verifier::type_invariant]
    spec fn inv(self) -> bool {
        self@.wf()
    }

    /// Two boards that hold the same are the same.
    pub proof fn lemma_view_injective(a: Board, b: Board)
        requires
            a@ == b@,
        ensures
            a == b,
    {
    }

    /// The board of the standard starting position.
    pub fn new() -> (r: Board)
        ensures
            r@ == standard_board(),
            r@.wf(),
    {
        proof {
            lemma_start_boards_wf();
        }
        Board {
            pawns: Bitboard(0x00ff_0000_0000_ff00),
            knights: Bitboard(0x4200_0000_0000_0042),
            bishops: Bitboard(0x2400_0000_0000_0024),
            rooks: Bitboard(0x8100_0000_0000_0081),
            queens: Bitboard(0x0800_0000_0000_0008),
            kings: Bitboard(0x1000_0000_0000_0010),
            white: Bitboard(0xffff),
            black: Bitboard(0xffff_0000_0000_0000),
            promoted: Bitboard(0),
        }
    }

    /// The board without any piece.
    pub fn empty() -> (r: Board)
        ensures
            r@ == empty_board(),
            r@.wf(),
    {
        proof {
            lemma_start_boards_wf();
        }
        Board {
            pawns: Bitboard(0),
            knights: Bitboard(0),
            bishops: Bitboard(0),
            rooks: Bitboard(0),
            queens: Bitboard(0),
            kings: Bitboard(0),
            white: Bitboard(0),
            black: Bitboard(0),
            promoted: Bitboard(0),
        }
    }

    /// The board of the Racing Kings starting position.
    pub fn racing_kings() -> (r: Board)
        ensures
            r@ == racing_kings_board(),
            r@.wf(),
    {
        proof {
            lemma_start_boards_wf();
        }
        Board {
            pawns: Bitboard(0),
            knights: Bitboard(0x1818),
            bishops: Bitboard(0x2424),
            rooks: Bitboard(0x4242),
            queens: Bitboard(0x0081),
            kings: Bitboard(0x8100),
            white: Bitboard(0xf0f0),
            black: Bitboard(0x0f0f),
            promoted: Bitboard(0),
        }
    }

    /// The board of the Horde starting position.
    pub fn horde() -> (r: Board)
        ensures
            r@ == horde_board(),
            r@.wf(),
    {
        proof {
            lemma_start_boards_wf();
        }
        Board {
            pawns: Bitboard(0x00ff_0066_ffff_ffff),
            knights: Bitboard(0x4200_0000_0000_0000),
            bishops: Bitboard(0x2400_0000_0000_0000),
            rooks: Bitboard(0x8100_0000_0000_0000),
            queens: Bitboard(0x0800_0000_0000_0000),
            kings: Bitboard(0x1000_0000_0000_0000),
            white: Bitboard(0x0000_0066_ffff_ffff),
            black: Bitboard(0xffff_0000_0000_0000),
            promoted: Bitboard(0),
        }
    }

    pub fn pawns(&self) -> (r: Bitboard)
        ensures
            r.0 == self@.pawns,
    {
        self.pawns
    }

    pub fn knights(&self) -> (r: Bitboard)
        ensures
            r.0 == self@.knights,
    {
        self.knights
    }

    pub fn bishops(&self) -> (r: Bitboard)
        ensures
            r.0 == self@.bishops,
    {
        self.bishops
    }

    pub fn rooks(&self) -> (r: Bitboard)
        ensures
            r.0 == self@.rooks,
    {
        self.rooks
    }

    pub fn queens(&self) -> (r: Bitboard)
        ensures
            r.0 == self@.queens,
    {
        self.queens
    }

    pub fn kings(&self) -> (r: Bitboard)
        ensures
            r.0 == self@.kings,
    {
        self.kings
    }

    pub fn white(&self) -> (r: Bitboard)
        ensures
            r.0 == self@.white,
    {
        self.white
    }

    pub fn black(&self) -> (r: Bitboard)
        ensures
            r.0 == self@.black,
    {
        self.black
    }

    /// The pieces that came from a promotion.
    pub fn promoted(&self) -> (r: Bitboard)
        ensures
            r.0 == self@.promoted,
    {
        self.promoted
    }

    /// The occupied squares. Every board is well formed.
    pub fn occupied(&self) -> (r: Bitboard)
        ensures
            r.0 == self@.occupied(),
            self@.wf(),
    {
        proof {
            use_type_invariant(self);
        }
        Bitboard(self.white.0 | self.black.0)
    }

    pub fn rooks_and_queens(&self) -> (r: Bitboard)
        ensures
            r.0 == self@.rooks | self@.queens,
    {
        Bitboard(self.rooks.0 | self.queens.0)
    }

    pub fn bishops_and_queens(&self) -> (r: Bitboard)
        ensures
            r.0 == self@.bishops | self@.queens,
    {
        Bitboard(self.bishops.0 | self.queens.0)
    }

    /// Bishops, rooks and queens.
    pub fn sliders(&self) -> (r: Bitboard)
        ensures
            r.0 == self@.bishops ^ self@.rooks ^ self@.queens,
    {
        Bitboard(self.bishops.0 ^ self.rooks.0 ^ self.queens.0)
    }

    /// Pawns, knights and kings.
    pub fn steppers(&self) -> (r: Bitboard)
        ensures
            r.0 == self@.knights ^ self@.pawns ^ self@.kings,
    {
        Bitboard(self.knights.0 ^ self.pawns.0 ^ self.kings.0)
    }

    pub fn by_color(&self, color: Color) -> (r: Bitboard)
        ensures
            r.0 == self@.by_color(color),
    {
        match color {
            Color::White => self.white,
            Color::Black => self.black,
        }
    }

    pub fn by_role(&self, role: Role) -> (r: Bitboard)
        ensures
            r.0 == self@.by_role(role),
    {
        match role {
            Role::Pawn => self.pawns,
            Role::Knight => self.knights,
            Role::Bishop => self.bishops,
            Role::Rook => self.rooks,
            Role::Queen => self.queens,
            Role::King => self.kings,
        }
    }

    pub fn by_piece(&self, piece: Piece) -> (r: Bitboard)
        ensures
            r.0 == self@.by_piece(piece),
    {
        Bitboard(self.by_color(piece.color).0 & self.by_role(piece.role).0)
    }

    pub fn role_at(&self, sq: Square) -> (r: Option<Role>)
        ensures
            r == self@.role_at(sq.idx()),
    {
        if self.pawns.contains(sq) {
            Some(Role::Pawn)
        } else if self.knights.contains(sq) {
            Some(Role::Knight)
        } else if self.bishops.contains(sq) {
            Some(Role::Bishop)
        } else if self.rooks.contains(sq) {
            Some(Role::Rook)
        } else if self.queens.contains(sq) {
            Some(Role::Queen)
        } else if self.kings.contains(sq) {
            Some(Role::King)
        } else {
            None
        }
    }

    pub fn color_at(&self, sq: Square) -> (r: Option<Color>)
        ensures
            r == self@.color_at(sq.idx()),
    {
        if self.white.contains(sq) {
            Some(Color::White)
        } else if self.black.contains(sq) {
            Some(Color::Black)
        } else {
            None
        }
    }

    pub fn piece_at(&self, sq: Square) -> (r: Option<Piece>)
        ensures
            r == self@.piece_at(sq.idx()),
    {
        match (self.color_at(sq), self.role_at(sq)) {
            (Some(color), Some(role)) => Some(Piece { color, role }),
            _ => None,
        }
    }

    /// The lowest square with a king of `color`.
    pub fn king_of(&self, color: Color) -> (r: Option<Square>)
        ensures
            r == self@.king_of(color),
    {
        Bitboard(self.by_color(color).0 & self.kings.0).first()
    }

    /// Puts `piece` on `sq`, in place of what stood there.
    pub fn set_piece_at(&mut self, sq: Square, piece: Piece, promoted: bool)
        ensures
            final(self)@ == old(self)@.with(sq.idx(), piece, promoted),
            final(self)@.wf(),
    {
        proof {
            use_type_invariant(&*self);
            self@.lemma_patched_wf(
                bit(sq.idx()),
                Some(piece.role),
                Some(piece.color),
                promoted,
            );
        }
        let m: u64 = 1u64 << sq.index();
        let Piece { color, role } = piece;
        *self = Board {
            pawns: Bitboard((self.pawns.0 & !m) | (if let Role::Pawn = role { m } else { 0 })),
            knights: Bitboard((self.knights.0 & !m) | (if let Role::Knight = role { m } else { 0 })),
            bishops: Bitboard((self.bishops.0 & !m) | (if let Role::Bishop = role { m } else { 0 })),
            rooks: Bitboard((self.rooks.0 & !m) | (if let Role::Rook = role { m } else { 0 })),
            queens: Bitboard((self.queens.0 & !m) | (if let Role::Queen = role { m } else { 0 })),
            kings: Bitboard((self.kings.0 & !m) | (if let Role::King = role { m } else { 0 })),
            white: Bitboard((self.white.0 & !m) | (if let Color::White = color { m } else { 0 })),
            black: Bitboard((self.black.0 & !m) | (if let Color::Black = color { m } else { 0 })),
            promoted: Bitboard((self.promoted.0 & !m) | (if promoted { m } else { 0 })),
        };
    }

    /// Empties `sq`.
    pub fn discard_piece_at(&mut self, sq: Square)
        ensures
            final(self)@ == old(self)@.without(sq.idx()),
            final(self)@.wf(),
    {
        proof {
            use_type_invariant(&*self);
            self@.lemma_patched_wf(bit(sq.idx()), None, None, false);
        }
        let m: u64 = 1u64 << sq.index();
        *self = Board {
            pawns: Bitboard((self.pawns.0 & !m) | 0),
            knights: Bitboard((self.knights.0 & !m) | 0),
            bishops: Bitboard((self.bishops.0 & !m) | 0),
            rooks: Bitboard((self.rooks.0 & !m) | 0),
            queens: Bitboard((self.queens.0 & !m) | 0),
            kings: Bitboard((self.kings.0 & !m) | 0),
            white: Bitboard((self.white.0 & !m) | 0),
            black: Bitboard((self.black.0 & !m) | 0),
            promoted: Bitboard((self.promoted.0 & !m) | 0),
        };
    }

    /// Empties the squares of `mask`.
    pub fn discard_pieces(&mut self, mask: Bitboard)
        ensures
            final(self)@ == old(self)@.patched(mask.0, None, None, false),
            final(self)@.wf(),
    {
        proof {
            use_type_invariant(&*self);
            self@.lemma_patched_wf(mask.0, None, None, false);
        }
        let m: u64 = mask.0;
        *self = Board {
            pawns: Bitboard((self.pawns.0 & !m) | 0),
            knights: Bitboard((self.knights.0 & !m) | 0),
            bishops: Bitboard((self.bishops.0 & !m) | 0),
            rooks: Bitboard((self.rooks.0 & !m) | 0),
            queens: Bitboard((self.queens.0 & !m) | 0),
            kings: Bitboard((self.kings.0 & !m) | 0),
            white: Bitboard((self.white.0 & !m) | 0),
            black: Bitboard((self.black.0 & !m) | 0),
            promoted: Bitboard((self.promoted.0 & !m) | 0),
        };
    }

    /// Empties `sq` and returns the piece that stood there.
    pub fn remove_piece_at(&mut self, sq: Square) -> (r: Option<Piece>)
        ensures
            r == old(self)@.piece_at(sq.idx()),
            final(self)@ == old(self)@.without(sq.idx()),
            final(self)@.wf(),
    {
        let piece = self.piece_at(sq);
        self.discard_piece_at(sq);
        piece
    }

    /// The pieces of `attacker` that attack `sq`, with the given squares
    /// occupied.
    pub fn attacks_to(&self, sq: Square, attacker: Color, occupied: Bitboard) -> (r: Bitboard)
        ensures
            r.0 == self@.attacks_to(sq.idx(), attacker, occupied.0),
    {
        Bitboard(
            self.by_color(attacker).0 & ((attacks::rook_attacks(sq, occupied).0 & (self.rooks.0
                | self.queens.0)) | (attacks::bishop_attacks(sq, occupied).0 & (self.bishops.0
                | self.queens.0)) | (attacks::knight_attacks(sq).0 & self.knights.0) | (
            attacks::king_attacks(sq).0 & self.kings.0) | (attacks::pawn_attacks(
                attacker.other(),
                sq,
            ).0 & self.pawns.0)),
        )
    }
}

impl Default for Board {
    fn default() -> (r: Board)
        ensures
            r@ == standard_board(),
            r@.wf(),
    {
        Board::new()
    }
}

} // verus!
