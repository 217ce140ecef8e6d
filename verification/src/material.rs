//! Counts of pieces, as held in the pockets of Crazyhouse.

use vstd::prelude::*;
use crate::color::Color;
use crate::types::Role;

verus! {

/// The number of pieces of each role that one side holds.
#[derive(Clone, Copy, Debug, PartialEq, Eq, Hash, Structural)]
pub struct MaterialSide {
    pub pawns: u8,
    pub knights: u8,
    pub bishops: u8,
    pub rooks: u8,
    pub queens: u8,
    pub kings: u8,
}

impl MaterialSide {
    pub fn new() -> (r: MaterialSide)
        ensures
            r == (MaterialSide { pawns: 0, knights: 0, bishops: 0, rooks: 0, queens: 0, kings: 0 }),
    {
        MaterialSide { pawns: 0, knights: 0, bishops: 0, rooks: 0, queens: 0, kings: 0 }
    }

    pub open spec fn by_role_spec(self, role: Role) -> u8 {
        match role {
            Role::Pawn => self.pawns,
            Role::Knight => self.knights,
            Role::Bishop => self.bishops,
            Role::Rook => self.rooks,
            Role::Queen => self.queens,
            Role::King => self.kings,
        }
    }

    pub fn by_role(&self, role: Role) -> (r: u8)
        ensures
            r == self.by_role_spec(role),
    {
        match role {
            Role::Pawn => self.pawns,
            Role::Knight => self.knights,
            Role::Bishop => self.bishops,
            Role::Rook => self.rooks,
            Role::Queen => self.queens,
            Role::King => self.kings,
        }
    }

    /// The counts with the one of `role` replaced.
    pub open spec fn with_role(self, role: Role, n: u8) -> MaterialSide {
        match role {
            Role::Pawn => MaterialSide { pawns: n, ..self },
            Role::Knight => MaterialSide { knights: n, ..self },
            Role::Bishop => MaterialSide { bishops: n, ..self },
            Role::Rook => MaterialSide { rooks: n, ..self },
            Role::Queen => MaterialSide { queens: n, ..self },
            Role::King => MaterialSide { kings: n, ..self },
        }
    }

    /// Sets the count of `role`.
    pub fn set_role(&mut self, role: Role, n: u8)
        ensures
            *final(self) == old(self).with_role(role, n),
    {
        match role {
            Role::Pawn => {
                self.pawns = n;
            },
            Role::Knight => {
                self.knights = n;
            },
            Role::Bishop => {
                self.bishops = n;
            },
            Role::Rook => {
                self.rooks = n;
            },
            Role::Queen => {
                self.queens = n;
            },
            Role::King => {
                self.kings = n;
            },
        }
    }

    /// The total number of pieces.
    pub open spec fn count_spec(self) -> int {
        self.pawns + self.knights + self.bishops + self.rooks + self.queens + self.kings
    }

    pub fn count(&self) -> (r: usize)
        ensures
            r == self.count_spec(),
    {
        self.pawns as usize + self.knights as usize + self.bishops as usize + self.rooks as usize
            + self.queens as usize + self.kings as usize
    }

    pub fn is_empty(&self) -> (r: bool)
        ensures
            r == (self.count_spec() == 0),
    {
        self.count() == 0
    }
}

/// The material of both sides.
#[derive(Clone, Copy, Debug, PartialEq, Eq, Hash, Structural)]
pub struct Material {
    pub white: MaterialSide,
    pub black: MaterialSide,
}

impl Material {
    pub fn new() -> (r: Material)
        ensures
            r.white.count_spec() == 0,
            r.black.count_spec() == 0,
            r == (Material {
                white: MaterialSide {
                    pawns: 0,
                    knights: 0,
                    bishops: 0,
                    rooks: 0,
                    queens: 0,
                    kings: 0,
                },
                black: MaterialSide {
                    pawns: 0,
                    knights: 0,
                    bishops: 0,
                    rooks: 0,
                    queens: 0,
                    kings: 0,
                },
            }),
    {
        Material { white: MaterialSide::new(), black: MaterialSide::new() }
    }

    pub open spec fn by_color_spec(self, color: Color) -> MaterialSide {
        match color {
            Color::White => self.white,
            Color::Black => self.black,
        }
    }

    pub fn by_color(&self, color: Color) -> (r: &MaterialSide)
        ensures
            *r == self.by_color_spec(color),
    {
        match color {
            Color::White => &self.white,
            Color::Black => &self.black,
        }
    }

    pub fn by_color_mut(&mut self, color: Color) -> (r: &mut MaterialSide)
        ensures
            *r == old(self).by_color_spec(color),
            *final(self) == old(self).with_side(color, *final(r)),
    {
        match color {
            Color::White => &mut self.white,
            Color::Black => &mut self.black,
        }
    }

    /// The material with the side of `color` replaced.
    pub open spec fn with_side(self, color: Color, side: MaterialSide) -> Material {
        match color {
            Color::White => Material { white: side, black: self.black },
            Color::Black => Material { white: self.white, black: side },
        }
    }

    pub open spec fn count_spec(self) -> int {
        self.white.count_spec() + self.black.count_spec()
    }

    pub fn count(&self) -> (r: usize)
        ensures
            r == self.count_spec(),
    {
        self.white.count() + self.black.count()
    }

    pub fn is_empty(&self) -> (r: bool)
        ensures
            r == (self.count_spec() == 0),
    {
        self.count() == 0
    }
}

impl Default for MaterialSide {
    fn default() -> (r: MaterialSide)
        ensures
            r == (MaterialSide { pawns: 0, knights: 0, bishops: 0, rooks: 0, queens: 0, kings: 0 }),
    {
        MaterialSide::new()
    }
}

impl Default for Material {
    fn default() -> (r: Material)
        ensures
            r.count_spec() == 0,
            r.white.count_spec() == 0,
            r.black.count_spec() == 0,
    {
        Material::new()
    }
}

} // verus!
