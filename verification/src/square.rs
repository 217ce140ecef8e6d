//! Files, ranks and squares of the board.

use vstd::prelude::*;

verus! {

/// A file (column) of the board, `A` to `H`.
#[derive(Clone, Copy, Debug, PartialEq, Eq, Hash, PartialOrd, Ord, Structural)]
pub enum File {
    A,
    B,
    C,
    D,
    E,
    F,
    G,
    H,
}

impl File {
    /// Index of the file: 0 for the a-file up to 7 for the h-file.
    pub open spec fn idx(self) -> int {
        match self {
            File::A => 0,
            File::B => 1,
            File::C => 2,
            File::D => 3,
            File::E => 4,
            File::F => 5,
            File::G => 6,
            File::H => 7,
        }
    }

    /// The file with the given index. Indexes above 7 give the h-file.
    pub open spec fn at(i: int) -> File {
        if i <= 0 {
            File::A
        } else if i == 1 {
            File::B
        } else if i == 2 {
            File::C
        } else if i == 3 {
            File::D
        } else if i == 4 {
            File::E
        } else if i == 5 {
            File::F
        } else if i == 6 {
            File::G
        } else {
            File::H
        }
    }

    pub fn new(index: u8) -> (r: Option<File>)
        ensures
            r == (if index < 8 { Some(File::at(index as int)) } else { None::<File> }),
            r matches Some(f) ==> f.idx() == index,
    {
        match index {
            0 => Some(File::A),
            1 => Some(File::B),
            2 => Some(File::C),
            3 => Some(File::D),
            4 => Some(File::E),
            5 => Some(File::F),
            6 => Some(File::G),
            7 => Some(File::H),
            _ => None,
        }
    }

    pub fn index(self) -> (r: u8)
        ensures
            r == self.idx(),
            r < 8,
            File::at(r as int) == self,
    {
        match self {
            File::A => 0,
            File::B => 1,
            File::C => 2,
            File::D => 3,
            File::E => 4,
            File::F => 5,
            File::G => 6,
            File::H => 7,
        }
    }

    /// Reads a lower case file letter, `a` to `h`.
    pub fn from_char(ch: u8) -> (r: Option<File>)
        ensures
            r == (if 97 <= ch <= 104 { Some(File::at(ch - 97)) } else { None::<File> }),
    {
        if 97 <= ch && ch <= 104 {
            File::new(ch - 97)
        } else {
            None
        }
    }

    /// The lower case letter of the file.
    pub fn char(self) -> (r: u8)
        ensures
            r == 97 + self.idx(),
    {
        97 + self.index()
    }

    /// Mirrors the file: `a` becomes `h`.
    pub fn flip_horizontal(self) -> (r: File)
        ensures
            r == File::at(7 - self.idx()),
    {
        match self {
            File::A => File::H,
            File::B => File::G,
            File::C => File::F,
            File::D => File::E,
            File::E => File::D,
            File::F => File::C,
            File::G => File::B,
            File::H => File::A,
        }
    }
}

/// A rank (row) of the board, `First` to `Eighth`.
#[derive(Clone, Copy, Debug, PartialEq, Eq, Hash, PartialOrd, Ord, Structural)]
pub enum Rank {
    First,
    Second,
    Third,
    Fourth,
    Fifth,
    Sixth,
    Seventh,
    Eighth,
}

impl Rank {
    /// Index of the rank: 0 for the first rank up to 7 for the eighth.
    pub open spec fn idx(self) -> int {
        match self {
            Rank::First => 0,
            Rank::Second => 1,
            Rank::Third => 2,
            Rank::Fourth => 3,
            Rank::Fifth => 4,
            Rank::Sixth => 5,
            Rank::Seventh => 6,
            Rank::Eighth => 7,
        }
    }

    /// The rank with the given index. Indexes above 7 give the eighth rank.
    pub open spec fn at(i: int) -> Rank {
        if i <= 0 {
            Rank::First
        } else if i == 1 {
            Rank::Second
        } else if i == 2 {
            Rank::Third
        } else if i == 3 {
            Rank::Fourth
        } else if i == 4 {
            Rank::Fifth
        } else if i == 5 {
            Rank::Sixth
        } else if i == 6 {
            Rank::Seventh
        } else {
            Rank::Eighth
        }
    }

    pub fn new(index: u8) -> (r: Option<Rank>)
        ensures
            r == (if index < 8 { Some(Rank::at(index as int)) } else { None::<Rank> }),
            r matches Some(k) ==> k.idx() == index,
    {
        match index {
            0 => Some(Rank::First),
            1 => Some(Rank::Second),
            2 => Some(Rank::Third),
            3 => Some(Rank::Fourth),
            4 => Some(Rank::Fifth),
            5 => Some(Rank::Sixth),
            6 => Some(Rank::Seventh),
            7 => Some(Rank::Eighth),
            _ => None,
        }
    }

    pub fn index(self) -> (r: u8)
        ensures
            r == self.idx(),
            r < 8,
            Rank::at(r as int) == self,
    {
        match self {
            Rank::First => 0,
            Rank::Second => 1,
            Rank::Third => 2,
            Rank::Fourth => 3,
            Rank::Fifth => 4,
            Rank::Sixth => 5,
            Rank::Seventh => 6,
            Rank::Eighth => 7,
        }
    }

    /// Reads a rank digit, `1` to `8`.
    pub fn from_char(ch: u8) -> (r: Option<Rank>)
        ensures
            r == (if 49 <= ch <= 56 { Some(Rank::at(ch - 49)) } else { None::<Rank> }),
    {
        if 49 <= ch && ch <= 56 {
            Rank::new(ch - 49)
        } else {
            None
        }
    }

    /// The digit of the rank.
    pub fn char(self) -> (r: u8)
        ensures
            r == 49 + self.idx(),
    {
        49 + self.index()
    }

    /// Mirrors the rank: the first rank becomes the eighth.
    pub fn flip_vertical(self) -> (r: Rank)
        ensures
            r == Rank::at(7 - self.idx()),
    {
        match self {
            Rank::First => Rank::Eighth,
            Rank::Second => Rank::Seventh,
            Rank::Third => Rank::Sixth,
            Rank::Fourth => Rank::Fifth,
            Rank::Fifth => Rank::Fourth,
            Rank::Sixth => Rank::Third,
            Rank::Seventh => Rank::Second,
            Rank::Eighth => Rank::First,
        }
    }
}

/// A square of the board. Its index is `8 * rank + file`, so a1 is 0, h1 is 7
/// and h8 is 63.
#[derive(Clone, Copy, Debug, PartialEq, Eq, Hash, PartialOrd, Ord, Structural)]
pub struct Square {
    index: u8,
}

/// Error when parsing a square name.
#[derive(Clone, Copy, Debug, PartialEq, Eq, Structural)]
pub struct ParseSquareError;

/// Absolute difference of two integers.
pub open spec fn abs_diff(a: int, b: int) -> int {
    if a < b {
        b - a
    } else {
        a - b
    }
}

/// Number of king steps between two square indexes.
pub open spec fn distance_spec(a: int, b: int) -> int {
    let df = abs_diff(a % 8, b % 8);
    let dr = abs_diff(a / 8, b / 8);
    if df < dr {
        dr
    } else {
        df
    }
}

impl Square {
    #[verifier::type_invariant]
    spec fn inv(self) -> bool {
        self.index < 64
    }

    /// Index of the square, as a mathematical integer.
    pub closed spec fn idx(self) -> int {
        self.index as int
    }

    /// The square with the given index (taken modulo 256).
    pub closed spec fn at(i: int) -> Square {
        Square { index: i as u8 }
    }

    /// A square is determined by its index.
    pub broadcast proof fn lemma_at_idx(s: Square)
        ensures
            Square::at(#[trigger] s.idx()) == s,
            0 <= s.idx() < 256,
    {
    }

    /// Every index below 256 names a square with that index.
    pub broadcast proof fn lemma_idx_at(i: int)
        requires
            0 <= i < 256,
        ensures
            #[trigger] Square::at(i).idx() == i,
    {
    }

    pub open spec fn file_spec(self) -> File {
        File::at(self.idx() % 8)
    }

    pub open spec fn rank_spec(self) -> Rank {
        Rank::at(self.idx() / 8)
    }

    pub fn new(index: u8) -> (r: Option<Square>)
        ensures
            r == (if index < 64 { Some(Square::at(index as int)) } else { None::<Square> }),
    {
        if index < 64 {
            Some(Square { index })
        } else {
            None
        }
    }

    pub fn from_coords(file: File, rank: Rank) -> (r: Square)
        ensures
            r == Square::at(8 * rank.idx() + file.idx()),
            r.idx() == 8 * rank.idx() + file.idx(),
    {
        Square { index: rank.index() * 8 + file.index() }
    }

    pub fn index(self) -> (r: u8)
        ensures
            r == self.idx(),
            r < 64,
    {
        proof {
            use_type_invariant(&self);
        }
        self.index
    }

    pub fn file(self) -> (r: File)
        ensures
            r == self.file_spec(),
            r.idx() == self.idx() % 8,
    {
        proof {
            use_type_invariant(&self);
        }
        match File::new(self.index % 8) {
            Some(f) => f,
            None => File::H,
        }
    }

    pub fn rank(self) -> (r: Rank)
        ensures
            r == self.rank_spec(),
            r.idx() == self.idx() / 8,
    {
        proof {
            use_type_invariant(&self);
        }
        match Rank::new(self.index / 8) {
            Some(k) => k,
            None => Rank::Eighth,
        }
    }

    /// The square `delta` indexes further, unless that leaves the board.
    pub open spec fn offset_spec(self, delta: int) -> Option<Square> {
        if 0 <= self.idx() + delta < 64 {
            Some(Square::at(self.idx() + delta))
        } else {
            None
        }
    }

    /// The square `delta` indexes further, unless that leaves the board.
    pub fn offset(self, delta: i8) -> (r: Option<Square>)
        ensures
            r == self.offset_spec(delta as int),
    {
        proof {
            use_type_invariant(&self);
        }
        let s: i16 = self.index as i16 + delta as i16;
        if 0 <= s && s < 64 {
            Some(Square { index: s as u8 })
        } else {
            None
        }
    }

    /// Number of king steps to the other square.
    pub fn distance(self, other: Square) -> (r: u8)
        ensures
            r == distance_spec(self.idx(), other.idx()),
            r < 8,
    {
        proof {
            use_type_invariant(&self);
            use_type_invariant(&other);
        }
        let (f1, f2) = (self.index % 8, other.index % 8);
        let (r1, r2) = (self.index / 8, other.index / 8);
        let df: u8 = if f1 < f2 { f2 - f1 } else { f1 - f2 };
        let dr: u8 = if r1 < r2 { r2 - r1 } else { r1 - r2 };
        if df < dr {
            dr
        } else {
            df
        }
    }

    /// Mirrors the square at the middle of the board: a1 becomes a8.
    pub fn flip_vertical(self) -> (r: Square)
        ensures
            r == Square::at(8 * (7 - self.idx() / 8) + self.idx() % 8),
    {
        proof {
            use_type_invariant(&self);
        }
        Square { index: 8 * (7 - self.index / 8) + self.index % 8 }
    }

    /// Mirrors the square: a1 becomes h1.
    pub fn flip_horizontal(self) -> (r: Square)
        ensures
            r == Square::at(8 * (self.idx() / 8) + 7 - self.idx() % 8),
    {
        proof {
            use_type_invariant(&self);
        }
        Square { index: 8 * (self.index / 8) + 7 - self.index % 8 }
    }

    /// True for the light squares, such as h1 and a8.
    pub fn is_light(self) -> (r: bool)
        ensures
            r == ((self.idx() / 8 + self.idx() % 8) % 2 == 1),
    {
        proof {
            use_type_invariant(&self);
        }
        (self.index / 8 + self.index % 8) % 2 == 1
    }

    /// Reads a square name such as `e4`: a file letter, then a rank digit.
    pub fn from_bytes(name: &[u8]) -> (r: Result<Square, ParseSquareError>)
        ensures
            r == parse_square(name@),
    {
        if name.len() != 2 {
            return Err(ParseSquareError);
        }
        match (File::from_char(name[0]), Rank::from_char(name[1])) {
            (Some(f), Some(k)) => Ok(Square::from_coords(f, k)),
            _ => Err(ParseSquareError),
        }
    }

    /// The two bytes of the square's name: file letter and rank digit.
    pub open spec fn name_spec(self) -> Seq<u8> {
        seq![(97 + self.idx() % 8) as u8, (49 + self.idx() / 8) as u8]
    }

    /// Appends the square's name to `out`.
    pub fn write_name(self, out: &mut Vec<u8>)
        ensures
            final(out)@ == old(out)@ + self.name_spec(),
    {
        let f = self.file().char();
        let k = self.rank().char();
        out.push(f);
        out.push(k);
        assert(out@ =~= old(out)@ + self.name_spec());
    }
}

/// What a square name denotes: `Ok` exactly for a lower case file letter
/// followed by a rank digit.
pub open spec fn parse_square(name: Seq<u8>) -> Result<Square, ParseSquareError> {
    if name.len() == 2 && 97 <= name[0] <= 104 && 49 <= name[1] <= 56 {
        Ok(Square::at(8 * (name[1] - 49) + (name[0] - 97)))
    } else {
        Err(ParseSquareError)
    }
}

} // verus!
