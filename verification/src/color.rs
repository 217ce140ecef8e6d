//! White or black.

use vstd::prelude::*;
use vstd::string::StringSliceAdditionalSpecFns;
use core::cmp::Ordering;
use vstd::std_specs::cmp::{PartialEqSpec, PartialOrdSpec};
use crate::square::Rank;
use crate::types::{Piece, Role};

verus! {

/// `White` or `Black`.
#[derive(Clone, Copy, Debug, PartialEq, Eq, Hash, Structural)]
pub enum Color {
    Black,
    White,
}

impl Color {
    pub fn from_char(ch: char) -> (r: Option<Color>)
        ensures
            r == (if ch == 'w' {
                Some(Color::White)
            } else if ch == 'b' {
                Some(Color::Black)
            } else {
                None::<Color>
            }),
    {
        match ch {
            'w' => Some(Color::White),
            'b' => Some(Color::Black),
            _ => None,
        }
    }

    #[inline]
    pub fn from_white(white: bool) -> (r: Color)
        ensures
            r == (if white { Color::White } else { Color::Black }),
    {
        if white {
            Color::White
        } else {
            Color::Black
        }
    }

    #[inline]
    pub fn from_black(black: bool) -> (r: Color)
        ensures
            r == (if black { Color::Black } else { Color::White }),
    {
        if black {
            Color::Black
        } else {
            Color::White
        }
    }

    #[inline]
    pub fn fold_wb<T>(self, white: T, black: T) -> (r: T)
        ensures
            r == (if self == Color::White { white } else { black }),
    {
        match self {
            Color::White => white,
            Color::Black => black,
        }
    }

    #[inline]
    pub fn is_white(self) -> (r: bool)
        ensures
            r == (self == Color::White),
    {
        self == Color::White
    }

    #[inline]
    pub fn is_black(self) -> (r: bool)
        ensures
            r == (self == Color::Black),
    {
        self == Color::Black
    }

    /// `White` and `Black`, in this order.
    pub fn all() -> (r: [Color; 2])
        ensures
            r[0] == Color::White,
            r[1] == Color::Black,
    {
        [Color::White, Color::Black]
    }

    /// The other color.
    pub open spec fn other_spec(self) -> Color {
        match self {
            Color::White => Color::Black,
            Color::Black => Color::White,
        }
    }

    /// The other color.
    #[inline]
    pub fn other(self) -> (r: Color)
        ensures
            r == self.other_spec(),
    {
        self.fold_wb(Color::Black, Color::White)
    }

    /// The color itself, or the other color if `flip` is set.
    #[inline]
    pub fn flipped_if(self, flip: bool) -> (r: Color)
        ensures
            r == (if flip { self.other_spec() } else { self }),
    {
        Color::from_white(self.is_white() ^ flip)
    }

    #[inline]
    pub fn backrank(self) -> (r: Rank)
        ensures
            r == (if self == Color::White { Rank::First } else { Rank::Eighth }),
    {
        self.fold_wb(Rank::First, Rank::Eighth)
    }

    /// The rank as seen from this color's side of the board.
    pub open spec fn relative_rank_spec(self, rank: Rank) -> Rank {
        match self {
            Color::White => rank,
            Color::Black => Rank::at(7 - rank.idx()),
        }
    }

    #[inline]
    pub fn relative_rank(self, rank: Rank) -> (r: Rank)
        ensures
            r == self.relative_rank_spec(rank),
    {
        match self {
            Color::White => rank,
            Color::Black => rank.flip_vertical(),
        }
    }

    pub fn char(self) -> (r: char)
        ensures
            r == (if self == Color::White { 'w' } else { 'b' }),
    {
        self.fold_wb('w', 'b')
    }

    /// The name of the color: `white` or `black`.
    pub fn name(self) -> (r: &'static str)
        ensures
            r@ == (if self == Color::White { "white"@ } else { "black"@ }),
    {
        self.fold_wb("white", "black")
    }

    /// The bytes of `white`.
    pub open spec fn white_name() -> Seq<u8> {
        seq![119u8, 104u8, 105u8, 116u8, 101u8]
    }

    /// The bytes of `black`.
    pub open spec fn black_name() -> Seq<u8> {
        seq![98u8, 108u8, 97u8, 99u8, 107u8]
    }

    /// Reads the name of a color: `white` or `black`.
    pub fn from_name(name: &[u8]) -> (r: Result<Color, ParseColorError>)
        ensures
            r == (if name@ == Color::white_name() {
                Ok(Color::White)
            } else if name@ == Color::black_name() {
                Ok(Color::Black)
            } else {
                Err::<Color, ParseColorError>(ParseColorError)
            }),
    {
        if name.len() != 5 {
            return Err(ParseColorError);
        }
        if name[0] == 119 && name[1] == 104 && name[2] == 105 && name[3] == 116 && name[4] == 101 {
            assert(name@ =~= Color::white_name());
            Ok(Color::White)
        } else if name[0] == 98 && name[1] == 108 && name[2] == 97 && name[3] == 99 && name[4]
            == 107 {
            assert(name@ =~= Color::black_name());
            Ok(Color::Black)
        } else {
            Err(ParseColorError)
        }
    }

    #[inline]
    pub fn pawn(self) -> (r: Piece)
        ensures
            r == (Piece { color: self, role: Role::Pawn }),
    {
        Role::Pawn.of(self)
    }

    #[inline]
    pub fn knight(self) -> (r: Piece)
        ensures
            r == (Piece { color: self, role: Role::Knight }),
    {
        Role::Knight.of(self)
    }

    #[inline]
    pub fn bishop(self) -> (r: Piece)
        ensures
            r == (Piece { color: self, role: Role::Bishop }),
    {
        Role::Bishop.of(self)
    }

    #[inline]
    pub fn rook(self) -> (r: Piece)
        ensures
            r == (Piece { color: self, role: Role::Rook }),
    {
        Role::Rook.of(self)
    }

    #[inline]
    pub fn queen(self) -> (r: Piece)
        ensures
            r == (Piece { color: self, role: Role::Queen }),
    {
        Role::Queen.of(self)
    }

    #[inline]
    pub fn king(self) -> (r: Piece)
        ensures
            r == (Piece { color: self, role: Role::King }),
    {
        Role::King.of(self)
    }
}

impl core::ops::Not for Color {
    type Output = Color;

    #[inline]
    fn not(self) -> (r: Color) {
        self.fold_wb(Color::Black, Color::White)
    }
}

impl vstd::std_specs::ops::NotSpecImpl for Color {
    open spec fn obeys_not_spec() -> bool {
        true
    }

    open spec fn not_req(self) -> bool {
        true
    }

    open spec fn not_spec(self) -> Color {
        self.other_spec()
    }
}

impl core::ops::BitXor<bool> for Color {
    type Output = Color;

    #[inline]
    fn bitxor(self, flip: bool) -> (r: Color) {
        Color::from_white(self.is_white() ^ flip)
    }
}

impl vstd::std_specs::ops::BitXorSpecImpl<bool> for Color {
    open spec fn obeys_bitxor_spec() -> bool {
        true
    }

    open spec fn bitxor_req(self, flip: bool) -> bool {
        true
    }

    open spec fn bitxor_spec(self, flip: bool) -> Color {
        if flip {
            self.other_spec()
        } else {
            self
        }
    }
}

/// Error when parsing an invalid color name.
#[derive(Clone, Copy, Debug, PartialEq, Eq, Structural)]
pub struct ParseColorError;

impl ParseColorError {
    pub fn message(&self) -> (r: &'static str)
        ensures
            r@ == "invalid color"@,
    {
        "invalid color"
    }
}

/// Container with values for each [`Color`].
#[derive(Clone, Debug, PartialEq, Eq, Hash)]
pub struct ByColor<T> {
    pub black: T,
    pub white: T,
}

impl<T> ByColor<T> {
    /// The value for `color`.
    pub open spec fn get(self, color: Color) -> T {
        match color {
            Color::Black => self.black,
            Color::White => self.white,
        }
    }

    /// The container with the two values exchanged.
    pub open spec fn flipped(self) -> ByColor<T> {
        ByColor { black: self.white, white: self.black }
    }

    /// Makes the value for white and then the value for black.
    #[inline]
    pub fn new_with<F>(init: F) -> (r: ByColor<T>) where F: Fn(Color) -> T
        requires
            init.requires((Color::White,)),
            init.requires((Color::Black,)),
        ensures
            init.ensures((Color::White,), r.white),
            init.ensures((Color::Black,), r.black),
    {
        let white = init(Color::White);
        let black = init(Color::Black);
        ByColor { white, black }
    }

    #[inline]
    pub fn by_color(&self, color: Color) -> (r: &T)
        ensures
            *r == self.get(color),
    {
        match color {
            Color::Black => &self.black,
            Color::White => &self.white,
        }
    }

    #[inline]
    pub fn by_color_mut(&mut self, color: Color) -> (r: &mut T)
        ensures
            *r == old(self).get(color),
            *final(self) == (match color {
                Color::Black => ByColor { black: *final(r), white: old(self).white },
                Color::White => ByColor { black: old(self).black, white: *final(r) },
            }),
    {
        match color {
            Color::Black => &mut self.black,
            Color::White => &mut self.white,
        }
    }

    #[inline]
    pub fn into_color(self, color: Color) -> (r: T)
        ensures
            r == self.get(color),
    {
        match color {
            Color::Black => self.black,
            Color::White => self.white,
        }
    }

    pub fn flip(&mut self)
        ensures
            *final(self) == old(self).flipped(),
    {
        core::mem::swap(&mut self.white, &mut self.black);
    }

    #[must_use]
    pub fn into_flipped(self) -> (r: ByColor<T>)
        ensures
            r == self.flipped(),
    {
        ByColor { black: self.white, white: self.black }
    }

    /// Applies `f` to the value for white and then to the value for black.
    #[inline]
    pub fn map<U, F>(self, f: F) -> (r: ByColor<U>) where F: Fn(T) -> U
        requires
            f.requires((self.white,)),
            f.requires((self.black,)),
        ensures
            f.ensures((self.white,), r.white),
            f.ensures((self.black,), r.black),
    {
        let white = f(self.white);
        let black = f(self.black);
        ByColor { white, black }
    }

    /// Tells whether the predicate holds for a value. It is not asked
    /// about black if it holds for white.
    #[inline]
    pub fn any<F>(&self, predicate: F) -> (r: bool) where F: Fn(&T) -> bool
        requires
            predicate.requires((&self.white,)),
            predicate.requires((&self.black,)),
        ensures
            (r && predicate.ensures((&self.white,), true)) || (predicate.ensures(
                (&self.white,),
                false,
            ) && predicate.ensures((&self.black,), r)),
    {
        predicate(&self.white) || predicate(&self.black)
    }

    /// Tells whether the predicate holds for both values. It is not asked
    /// about black if it fails for white.
    #[inline]
    pub fn all<F>(&self, predicate: F) -> (r: bool) where F: Fn(&T) -> bool
        requires
            predicate.requires((&self.white,)),
            predicate.requires((&self.black,)),
        ensures
            (!r && predicate.ensures((&self.white,), false)) || (predicate.ensures(
                (&self.white,),
                true,
            ) && predicate.ensures((&self.black,), r)),
    {
        predicate(&self.white) && predicate(&self.black)
    }

    /// The first color for whose value the predicate holds, white before
    /// black.
    #[inline]
    pub fn find<F>(&self, predicate: F) -> (r: Option<Color>) where F: Fn(&T) -> bool
        requires
            predicate.requires((&self.white,)),
            predicate.requires((&self.black,)),
        ensures
            match r {
                Some(Color::White) => predicate.ensures((&self.white,), true),
                Some(Color::Black) => predicate.ensures((&self.white,), false)
                    && predicate.ensures((&self.black,), true),
                None => predicate.ensures((&self.white,), false) && predicate.ensures(
                    (&self.black,),
                    false,
                ),
            },
    {
        if predicate(&self.white) {
            Some(Color::White)
        } else if predicate(&self.black) {
            Some(Color::Black)
        } else {
            None
        }
    }

    #[inline]
    pub fn as_ref(&self) -> (r: ByColor<&T>)
        ensures
            *r.black == self.black,
            *r.white == self.white,
    {
        ByColor { black: &self.black, white: &self.white }
    }

    #[inline]
    pub fn as_mut(&mut self) -> (r: ByColor<&mut T>)
        ensures
            *r.black == old(self).black,
            *r.white == old(self).white,
            *final(self) == (ByColor { black: *final(r.black), white: *final(r.white) }),
    {
        ByColor { black: &mut self.black, white: &mut self.white }
    }

    pub fn zip_color(self) -> (r: ByColor<(Color, T)>)
        ensures
            r == (ByColor { black: (Color::Black, self.black), white: (Color::White, self.white) }),
    {
        ByColor { black: (Color::Black, self.black), white: (Color::White, self.white) }
    }

    pub fn zip<U>(self, other: ByColor<U>) -> (r: ByColor<(T, U)>)
        ensures
            r == (ByColor {
                black: (self.black, other.black),
                white: (self.white, other.white),
            }),
    {
        ByColor { black: (self.black, other.black), white: (self.white, other.white) }
    }

    /// The two values, white first.
    pub fn iter(&self) -> (r: [&T; 2])
        ensures
            *r[0] == self.white,
            *r[1] == self.black,
    {
        [&self.white, &self.black]
    }

    /// The two values, white first, to change them.
    pub fn iter_mut(&mut self) -> (r: [&mut T; 2])
        ensures
            *r[0] == old(self).white,
            *r[1] == old(self).black,
            *final(self) == (ByColor { black: *final(r[1]), white: *final(r[0]) }),
    {
        [&mut self.white, &mut self.black]
    }
}

impl<T: PartialOrd> ByColor<T> {
    /// Exchanges the two values if the one for white is less than the one
    /// for black.
    pub fn normalize(&mut self)
        ensures
            *final(self) == *old(self) || *final(self) == old(self).flipped(),
            T::obeys_partial_cmp_spec() ==> *final(self) == (if old(self).white.partial_cmp_spec(
                &old(self).black,
            ) == Some(Ordering::Less) {
                old(self).flipped()
            } else {
                *old(self)
            }),
    {
        if self.white < self.black {
            self.flip();
        }
    }

    #[must_use]
    pub fn into_normalized(self) -> (r: ByColor<T>)
        ensures
            r == self || r == self.flipped(),
            T::obeys_partial_cmp_spec() ==> r == (if self.white.partial_cmp_spec(&self.black)
                == Some(Ordering::Less) {
                self.flipped()
            } else {
                self
            }),
    {
        let mut r = self;
        r.normalize();
        r
    }
}

impl<T: PartialEq> ByColor<T> {
    pub fn is_symmetric(&self) -> (r: bool)
        ensures
            T::obeys_eq_spec() ==> r == self.white.eq_spec(&self.black),
    {
        self.white == self.black
    }
}

impl<T: Copy> ByColor<&T> {
    pub fn copied(self) -> (r: ByColor<T>)
        ensures
            r == (ByColor { black: *self.black, white: *self.white }),
    {
        ByColor { black: *self.black, white: *self.white }
    }
}

impl<T: Clone> ByColor<&T> {
    pub fn cloned(self) -> (r: ByColor<T>)
        ensures
            cloned(*self.white, r.white),
            cloned(*self.black, r.black),
    {
        let white = self.white.clone();
        let black = self.black.clone();
        ByColor { black, white }
    }
}

impl std::str::FromStr for Color {
    type Err = ParseColorError;

    /// Reads the name of a color: `white` or `black`.
    fn from_str(s: &str) -> (r: Result<Color, ParseColorError>)
        ensures
            r == (if s.spec_bytes() == Color::white_name() {
                Ok(Color::White)
            } else if s.spec_bytes() == Color::black_name() {
                Ok(Color::Black)
            } else {
                Err::<Color, ParseColorError>(ParseColorError)
            }),
    {
        Color::from_name(s.as_bytes())
    }
}

} // verus!
