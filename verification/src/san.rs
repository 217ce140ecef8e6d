//! Read and write Standard Algebraic Notation.

use vstd::prelude::*;
use vstd::string::StringSliceAdditionalSpecFns;
use crate::movelist::MoveList;
use crate::position::{checkers, Outcome, Position, State};
use crate::rules::{legal_moves_spec, outcome_spec, play_spec, san_candidates_spec};
use crate::square::{File, Rank, Square};
use crate::types::{Move, Role};

verus! {

/// Error when parsing a syntactically invalid SAN.
#[derive(Clone, Copy, Debug, PartialEq, Eq, Structural)]
pub struct InvalidSan;

impl InvalidSan {
    pub fn message(&self) -> (r: &'static str)
        ensures
            r@ == "invalid san"@,
    {
        "invalid san"
    }
}

/// `IllegalSan` or `AmbiguousSan`.
#[derive(Clone, Copy, Debug, PartialEq, Eq, Structural)]
pub enum SanError {
    IllegalSan,
    AmbiguousSan,
}

impl SanError {
    pub fn desc(&self) -> (r: &'static str)
        ensures
            r@ == (match *self {
                SanError::IllegalSan => "illegal san"@,
                SanError::AmbiguousSan => "ambiguous san"@,
            }),
    {
        match *self {
            SanError::IllegalSan => "illegal san",
            SanError::AmbiguousSan => "ambiguous san",
        }
    }
}

/// A move in Standard Algebraic Notation.
#[derive(Clone, Copy, Debug, PartialEq, Eq, Structural)]
pub enum San {
    Normal {
        role: Role,
        file: Option<File>,
        rank: Option<Rank>,
        capture: bool,
        to: Square,
        promotion: Option<Role>,
    },
    CastleShort,
    CastleLong,
    Put { role: Role, to: Square },
    Null,
}

/// The rank that a digit from `1` to `8` names.
pub open spec fn rank_of(ch: u8) -> Option<Rank> {
    if 49 <= ch <= 56 {
        Some(Rank::at(ch - 49))
    } else {
        None
    }
}

/// The file that a letter from `a` to `h` names.
pub open spec fn file_of(ch: u8) -> Option<File> {
    if 97 <= ch <= 104 {
        Some(File::at(ch - 97))
    } else {
        None
    }
}

/// The role that an upper case piece letter names.
pub open spec fn role_of(ch: u8) -> Option<Role> {
    if 65 <= ch <= 90 {
        Role::from_char_spec(ch)
    } else {
        None
    }
}

pub fn rank_from_char(ch: u8) -> (r: Option<Rank>)
    ensures
        r == rank_of(ch),
{
    Rank::from_char(ch)
}

pub fn file_from_char(ch: u8) -> (r: Option<File>)
    ensures
        r == file_of(ch),
{
    File::from_char(ch)
}

fn role_from_char(ch: u8) -> (r: Option<Role>)
    ensures
        r == role_of(ch),
{
    if 65 <= ch && ch <= 90 {
        Role::from_char(ch)
    } else {
        None
    }
}

/// The text without one final `#` or `+`.
pub open spec fn without_suffix(s: Seq<u8>) -> Seq<u8> {
    if s.len() > 0 && (s.last() == 35 || s.last() == 43) {
        s.drop_last()
    } else {
        s
    }
}

/// The square with the given file and rank.
pub open spec fn square_of(file: File, rank: Rank) -> Square {
    Square::at(8 * rank.idx() + file.idx())
}

/// The byte at position `i`, if the text is that long.
pub open spec fn byte_at(s: Seq<u8>, i: int) -> Option<u8> {
    if 0 <= i < s.len() {
        Some(s[i])
    } else {
        None
    }
}

/// The promotion that the text holds from position `i` on: nothing, or
/// `=` and a piece letter, and nothing after it.
pub open spec fn parse_promotion(s: Seq<u8>, i: int) -> Option<Option<Role>> {
    if i >= s.len() {
        Some(None)
    } else if s[i] == 61 && i + 2 == s.len() {
        match role_of(s[i + 1]) {
            Some(role) => Some(Some(role)),
            None => None,
        }
    } else {
        None
    }
}

/// The square that the text names at positions `i` and `i + 1`.
pub open spec fn parse_target(s: Seq<u8>, i: int) -> Option<Square> {
    match (byte_at(s, i), byte_at(s, i + 1)) {
        (Some(f), Some(r)) => match (file_of(f), rank_of(r)) {
            (Some(file), Some(rank)) => Some(square_of(file, rank)),
            _ => None,
        },
        _ => None,
    }
}

/// The move of a piece of `role` that the text describes from position
/// `i` on: a file and a rank that tell the piece apart, both optional, an
/// `x` for a capture, the target square, and a promotion. Where the text
/// ends or the promotion starts before a target square, the file and rank
/// read so far name the target.
pub open spec fn parse_after_role(s: Seq<u8>, role: Role, i: int) -> Option<San> {
    let file = match byte_at(s, i) {
        Some(ch) => file_of(ch),
        None => None,
    };
    let j = if file.is_some() {
        i + 1
    } else {
        i
    };
    let rank = match byte_at(s, j) {
        Some(ch) => rank_of(ch),
        None => None,
    };
    let k = if rank.is_some() {
        j + 1
    } else {
        j
    };
    if i >= s.len() || j >= s.len() {
        None
    } else if k >= s.len() || s[k] == 61 {
        match (file, rank, parse_promotion(s, k)) {
            (Some(f), Some(r), Some(promotion)) => Some(
                San::Normal {
                    role,
                    file: None,
                    rank: None,
                    capture: false,
                    to: square_of(f, r),
                    promotion,
                },
            ),
            _ => None,
        }
    } else if s[k] == 120 {
        match (parse_target(s, k + 1), parse_promotion(s, k + 3)) {
            (Some(to), Some(promotion)) => Some(
                San::Normal { role, file, rank, capture: true, to, promotion },
            ),
            _ => None,
        }
    } else {
        match (parse_target(s, k), parse_promotion(s, k + 2)) {
            (Some(to), Some(promotion)) => Some(
                San::Normal { role, file, rank, capture: false, to, promotion },
            ),
            _ => None,
        }
    }
}

/// The bytes of `--`.
pub open spec fn null_text() -> Seq<u8> {
    seq![45u8, 45u8]
}

/// The bytes of `O-O`.
pub open spec fn short_text() -> Seq<u8> {
    seq![79u8, 45u8, 79u8]
}

/// The bytes of `O-O-O`.
pub open spec fn long_text() -> Seq<u8> {
    seq![79u8, 45u8, 79u8, 45u8, 79u8]
}

/// The move that a text without suffix describes, if it is well formed.
pub open spec fn parse_san_body(s: Seq<u8>) -> Option<San> {
    if s == null_text() {
        Some(San::Null)
    } else if s == short_text() {
        Some(San::CastleShort)
    } else if s == long_text() {
        Some(San::CastleLong)
    } else if s.len() == 3 && s[0] == 64 {
        match parse_target(s, 1) {
            Some(to) => Some(San::Put { role: Role::Pawn, to }),
            None => None,
        }
    } else if s.len() == 4 && s[1] == 64 {
        match (role_of(s[0]), parse_target(s, 2)) {
            (Some(role), Some(to)) => Some(San::Put { role, to }),
            _ => None,
        }
    } else if s.len() > 0 && 65 <= s[0] <= 90 {
        match role_of(s[0]) {
            Some(role) => parse_after_role(s, role, 1),
            None => None,
        }
    } else {
        parse_after_role(s, Role::Pawn, 0)
    }
}

/// The move that a text in Standard Algebraic Notation describes, if it is
/// well formed. A final `#` or `+` is passed over.
pub open spec fn parse_san(text: Seq<u8>) -> Option<San> {
    parse_san_body(without_suffix(text))
}

/// The letter of a role in Standard Algebraic Notation: none for a pawn.
pub open spec fn role_text(role: Role) -> Seq<u8> {
    if role == Role::Pawn {
        Seq::empty()
    } else {
        seq![(role.char_spec() - 32) as u8]
    }
}

/// The text of a promotion: `=` and the letter of the role.
pub open spec fn promotion_text(promotion: Option<Role>) -> Seq<u8> {
    match promotion {
        Some(role) => seq![61u8, (role.char_spec() - 32) as u8],
        None => Seq::empty(),
    }
}

pub open spec fn file_text(file: Option<File>) -> Seq<u8> {
    match file {
        Some(f) => seq![(97 + f.idx()) as u8],
        None => Seq::empty(),
    }
}

pub open spec fn rank_text(rank: Option<Rank>) -> Seq<u8> {
    match rank {
        Some(r) => seq![(49 + r.idx()) as u8],
        None => Seq::empty(),
    }
}

pub open spec fn capture_text(capture: bool) -> Seq<u8> {
    if capture {
        seq![120u8]
    } else {
        Seq::empty()
    }
}

/// The text of a move in Standard Algebraic Notation.
pub open spec fn san_text(san: San) -> Seq<u8> {
    match san {
        San::Normal { role, file, rank, capture, to, promotion } => role_text(role) + file_text(
            file,
        ) + rank_text(rank) + capture_text(capture) + to.name_spec() + promotion_text(promotion),
        San::CastleShort => short_text(),
        San::CastleLong => long_text(),
        San::Put { role, to } => role_text(role) + seq![64u8] + to.name_spec(),
        San::Null => null_text(),
    }
}

/// True if a legal move fits what the notation says.
pub open spec fn san_matches(san: San, m: Move) -> bool {
    match san {
        San::Normal { file, rank, capture, promotion, .. } => match m {
            Move::Normal { from, capture: c, promotion: p, .. } => (match file {
                Some(f) => f == from.file_spec(),
                None => true,
            }) && (match rank {
                Some(r) => r == from.rank_spec(),
                None => true,
            }) && capture == c.is_some() && promotion == p,
            Move::EnPassant { from, .. } => (match file {
                Some(f) => f == from.file_spec(),
                None => true,
            }) && (match rank {
                Some(r) => r == from.rank_spec(),
                None => true,
            }) && capture && promotion.is_none(),
            _ => false,
        },
        San::CastleShort => match m {
            Move::Castle { king, rook } => king.idx() % 8 < rook.idx() % 8,
            _ => false,
        },
        San::CastleLong => match m {
            Move::Castle { king, rook } => rook.idx() % 8 < king.idx() % 8,
            _ => false,
        },
        San::Put { .. } => m is Put,
        San::Null => false,
    }
}

pub open spec fn san_match_fn(san: San) -> spec_fn(Move) -> bool {
    |m: Move| san_matches(san, m)
}

/// The legal moves among which a notation picks: the moves of its piece to
/// its square, or all legal moves for castling.
pub open spec fn san_pool(san: San, s: State) -> Seq<Move> {
    match san {
        San::Normal { role, to, .. } => san_candidates_spec(s, role, to),
        San::Put { role, to } => san_candidates_spec(s, role, to),
        San::CastleShort => legal_moves_spec(s),
        San::CastleLong => legal_moves_spec(s),
        San::Null => Seq::empty(),
    }
}

/// The legal moves that fit a notation.
pub open spec fn san_moves(san: San, s: State) -> Seq<Move> {
    san_pool(san, s).filter(san_match_fn(san))
}

/// The move that a notation means in a position: the one legal move that
/// fits it.
pub open spec fn to_move_spec(san: San, s: State) -> Result<Move, SanError> {
    let fitting = san_moves(san, s);
    if fitting.len() == 0 {
        Err(SanError::IllegalSan)
    } else if fitting.len() == 1 {
        Ok(fitting[0])
    } else {
        Err(SanError::AmbiguousSan)
    }
}

/// True if `other` is another move of a piece of the same role to the
/// same square.
pub open spec fn is_rival(role: Role, from: Square, to: Square, other: Move) -> bool {
    other matches Move::Normal { role: r, to: t, from: f, .. } && r == role && t == to && f != from
}

/// True if a rival of the move from `from` stands on the same rank or on
/// another file, so that the file tells the two apart or is needed first.
pub open spec fn needs_file(from: Square, other: Move) -> bool {
    other matches Move::Normal { from: f, .. } && (from.idx() / 8 == f.idx() / 8 || from.idx() % 8
        != f.idx() % 8)
}

/// The notation of a legal move in a position. A pawn move names the file
/// it starts from if it captures. A move of another piece names its file
/// if a rival shares its rank or stands on another file, and its rank if a
/// rival stands on its file.
pub open spec fn san_spec(s: State, m: Move) -> San {
    match m {
        Move::Normal { role, from, capture, to, promotion } => {
            if role == Role::Pawn {
                San::Normal {
                    role: Role::Pawn,
                    file: if capture.is_some() {
                        Some(from.file_spec())
                    } else {
                        None
                    },
                    rank: None,
                    capture: capture.is_some(),
                    to,
                    promotion,
                }
            } else {
                let legals = legal_moves_spec(s);
                San::Normal {
                    role,
                    file: if exists|i: int|
                        0 <= i < legals.len() && is_rival(role, from, to, #[trigger] legals[i])
                            && needs_file(from, legals[i]) {
                        Some(from.file_spec())
                    } else {
                        None
                    },
                    rank: if exists|i: int|
                        0 <= i < legals.len() && is_rival(role, from, to, #[trigger] legals[i])
                            && !needs_file(from, legals[i]) {
                        Some(from.rank_spec())
                    } else {
                        None
                    },
                    capture: capture.is_some(),
                    to,
                    promotion,
                }
            }
        },
        Move::EnPassant { from, to } => San::Normal {
            role: Role::Pawn,
            file: Some(from.file_spec()),
            rank: None,
            capture: true,
            to,
            promotion: None,
        },
        Move::Castle { king, rook } => if rook.idx() % 8 < king.idx() % 8 {
            San::CastleLong
        } else {
            San::CastleShort
        },
        Move::Put { role, to } => San::Put { role, to },
    }
}

impl San {
    /// Reads the square named at positions `i` and `i + 1` of the text.
    fn read_target(s: &[u8], i: usize) -> (r: Option<Square>)
        requires
            i < usize::MAX,
        ensures
            r == parse_target(s@, i as int),
    {
        if i + 1 >= s.len() {
            return None;
        }
        match (file_from_char(s[i]), rank_from_char(s[i + 1])) {
            (Some(file), Some(rank)) => Some(Square::from_coords(file, rank)),
            _ => None,
        }
    }

    /// Reads the promotion that the text holds from position `i` on.
    fn read_promotion(s: &[u8], i: usize) -> (r: Option<Option<Role>>)
        ensures
            r == parse_promotion(s@, i as int),
    {
        if i >= s.len() {
            Some(None)
        } else if s[i] == 61 && s.len() - i == 2 {
            match role_from_char(s[i + 1]) {
                Some(role) => Some(Some(role)),
                None => None,
            }
        } else {
            None
        }
    }

    /// Reads the move of a piece of `role` from position `i` of the text
    /// on.
    fn read_after_role(s: &[u8], role: Role, i: usize) -> (r: Option<San>)
        requires
            i <= 1,
        ensures
            r == parse_after_role(s@, role, i as int),
    {
        if i >= s.len() {
            return None;
        }
        let file = file_from_char(s[i]);
        let j = if file.is_some() {
            i + 1
        } else {
            i
        };
        if j >= s.len() {
            return None;
        }
        let rank = rank_from_char(s[j]);
        let k = if rank.is_some() {
            j + 1
        } else {
            j
        };
        if k >= s.len() || s[k] == 61 {
            match (file, rank, San::read_promotion(s, k)) {
                (Some(f), Some(r), Some(promotion)) => Some(
                    San::Normal {
                        role,
                        file: None,
                        rank: None,
                        capture: false,
                        to: Square::from_coords(f, r),
                        promotion,
                    },
                ),
                _ => None,
            }
        } else if s[k] == 120 {
            match (San::read_target(s, k + 1), San::read_promotion(s, k + 3)) {
                (Some(to), Some(promotion)) => Some(
                    San::Normal { role, file, rank, capture: true, to, promotion },
                ),
                _ => None,
            }
        } else {
            match (San::read_target(s, k), San::read_promotion(s, k + 2)) {
                (Some(to), Some(promotion)) => Some(
                    San::Normal { role, file, rank, capture: false, to, promotion },
                ),
                _ => None,
            }
        }
    }

    /// Reads a move in Standard Algebraic Notation, without a suffix.
    fn read(s: &[u8]) -> (r: Option<San>)
        ensures
            r == parse_san_body(s@),
    {
        let n = s.len();
        if n == 2 && s[0] == 45 && s[1] == 45 {
            assert(s@ =~= null_text());
            Some(San::Null)
        } else if n == 3 && s[0] == 79 && s[1] == 45 && s[2] == 79 {
            assert(s@ =~= short_text());
            Some(San::CastleShort)
        } else if n == 5 && s[0] == 79 && s[1] == 45 && s[2] == 79 && s[3] == 45 && s[4] == 79 {
            assert(s@ =~= long_text());
            Some(San::CastleLong)
        } else if n == 3 && s[0] == 64 {
            match San::read_target(s, 1) {
                Some(to) => Some(San::Put { role: Role::Pawn, to }),
                None => None,
            }
        } else if n == 4 && s[1] == 64 {
            match (role_from_char(s[0]), San::read_target(s, 2)) {
                (Some(role), Some(to)) => Some(San::Put { role, to }),
                _ => None,
            }
        } else if n > 0 && 65 <= s[0] && s[0] <= 90 {
            match role_from_char(s[0]) {
                Some(role) => San::read_after_role(s, role, 1),
                None => None,
            }
        } else {
            San::read_after_role(s, Role::Pawn, 0)
        }
    }

    /// Parse SAN. A final `#` or `+` is passed over.
    pub fn from_bytes(san: &[u8]) -> (r: Result<San, InvalidSan>)
        ensures
            r == (match parse_san(san@) {
                Some(s) => Ok::<San, InvalidSan>(s),
                None => Err::<San, InvalidSan>(InvalidSan),
            }),
    {
        let n = san.len();
        let body = if n > 0 && (san[n - 1] == 35 || san[n - 1] == 43) {
            vstd::slice::slice_subrange(san, 0, n - 1)
        } else {
            san
        };
        assert(body@ =~= without_suffix(san@));
        match San::read(body) {
            Some(s) => Ok(s),
            None => Err(InvalidSan),
        }
    }

    fn write_role(role: Role, out: &mut Vec<u8>)
        ensures
            final(out)@ == old(out)@ + role_text(role),
    {
        if role != Role::Pawn {
            out.push(role.upper_char());
        }
        assert(out@ =~= old(out)@ + role_text(role));
    }

    fn write_file(file: Option<File>, out: &mut Vec<u8>)
        ensures
            final(out)@ == old(out)@ + file_text(file),
    {
        if let Some(f) = file {
            out.push(f.char());
        }
        assert(out@ =~= old(out)@ + file_text(file));
    }

    fn write_rank(rank: Option<Rank>, out: &mut Vec<u8>)
        ensures
            final(out)@ == old(out)@ + rank_text(rank),
    {
        if let Some(r) = rank {
            out.push(r.char());
        }
        assert(out@ =~= old(out)@ + rank_text(rank));
    }

    fn write_capture(capture: bool, out: &mut Vec<u8>)
        ensures
            final(out)@ == old(out)@ + capture_text(capture),
    {
        if capture {
            out.push(120);
        }
        assert(out@ =~= old(out)@ + capture_text(capture));
    }

    fn write_promotion(promotion: Option<Role>, out: &mut Vec<u8>)
        ensures
            final(out)@ == old(out)@ + promotion_text(promotion),
    {
        if let Some(p) = promotion {
            out.push(61);
            out.push(p.upper_char());
        }
        assert(out@ =~= old(out)@ + promotion_text(promotion));
    }

    fn write_normal(
        role: Role,
        file: Option<File>,
        rank: Option<Rank>,
        capture: bool,
        to: Square,
        promotion: Option<Role>,
        out: &mut Vec<u8>,
    )
        ensures
            final(out)@ == old(out)@ + (role_text(role) + file_text(file) + rank_text(rank)
                + capture_text(capture) + to.name_spec() + promotion_text(promotion)),
    {
        San::write_role(role, out);
        San::write_file(file, out);
        San::write_rank(rank, out);
        San::write_capture(capture, out);
        to.write_name(out);
        San::write_promotion(promotion, out);
        assert(out@ =~= old(out)@ + (role_text(role) + file_text(file) + rank_text(rank)
            + capture_text(capture) + to.name_spec() + promotion_text(promotion)));
    }

    fn write_put(role: Role, to: Square, out: &mut Vec<u8>)
        ensures
            final(out)@ == old(out)@ + (role_text(role) + seq![64u8] + to.name_spec()),
    {
        San::write_role(role, out);
        out.push(64);
        to.write_name(out);
        assert(out@ =~= old(out)@ + (role_text(role) + seq![64u8] + to.name_spec()));
    }

    /// Appends the text of the move to `out`.
    pub fn write(&self, out: &mut Vec<u8>)
        ensures
            final(out)@ == old(out)@ + san_text(*self),
    {
        match *self {
            San::Normal { role, file, rank, capture, to, promotion } => {
                San::write_normal(role, file, rank, capture, to, promotion, out);
            },
            San::CastleShort => {
                out.push(79);
                out.push(45);
                out.push(79);
            },
            San::CastleLong => {
                out.push(79);
                out.push(45);
                out.push(79);
                out.push(45);
                out.push(79);
            },
            San::Put { role, to } => {
                San::write_put(role, to, out);
            },
            San::Null => {
                out.push(45);
                out.push(45);
            },
        }
        assert(out@ =~= old(out)@ + san_text(*self));
    }

    /// The text of the move.
    pub fn to_bytes(&self) -> (r: Vec<u8>)
        ensures
            r@ == san_text(*self),
    {
        let mut out: Vec<u8> = Vec::new();
        self.write(&mut out);
        assert(out@ =~= san_text(*self));
        out
    }
}

/// A `San` and possible check and checkmate suffixes.
#[derive(Clone, Copy, Debug, PartialEq, Eq, Structural)]
pub struct SanPlus {
    pub san: San,
    pub check: bool,
    pub checkmate: bool,
}

/// The suffix of a move: `#` for checkmate, else `+` for check.
pub open spec fn suffix_text(check: bool, checkmate: bool) -> Seq<u8> {
    if checkmate {
        seq![35u8]
    } else if check {
        seq![43u8]
    } else {
        Seq::empty()
    }
}

/// The text of a move with its suffix.
pub open spec fn san_plus_text(san: SanPlus) -> Seq<u8> {
    san_text(san.san) + suffix_text(san.check, san.checkmate)
}

/// The move with suffixes that a text describes, if it is well formed.
pub open spec fn parse_san_plus(text: Seq<u8>) -> Option<SanPlus> {
    match parse_san(text) {
        Some(san) => Some(
            SanPlus {
                san,
                checkmate: text.len() > 0 && text.last() == 35,
                check: text.len() > 0 && text.last() == 43,
            },
        ),
        None => None,
    }
}

/// The notation of a move with its suffix: `#` if the move ends the game
/// with a winner, and else `+` if it gives check.
pub open spec fn san_plus_spec(s: State, m: Move) -> SanPlus {
    let after = play_spec(s, m);
    let checkmate = outcome_spec(after) matches Some(Outcome::Decisive { .. });
    SanPlus { san: san_spec(s, m), checkmate, check: !checkmate && checkers(after) != 0 }
}

/// True if every byte is an ASCII character.
pub open spec fn is_ascii(bytes: Seq<u8>) -> bool {
    forall|i: int| 0 <= i < bytes.len() ==> bytes[i] < 128
}

/// The characters of an ASCII text.
pub open spec fn ascii_chars(bytes: Seq<u8>) -> Seq<char> {
    Seq::new(bytes.len(), |i: int| bytes[i] as char)
}

/// Makes a string of ASCII bytes. This calls `String::from_utf8_lossy` of
/// the standard library, which leaves valid UTF-8 as it is: the string has
/// one character for each byte, with the same code.
#[verifier::external_body]
fn ascii_string(bytes: &Vec<u8>) -> (r: String)
    requires
        is_ascii(bytes@),
    ensures
        r@ == ascii_chars(bytes@),
{
    String::from_utf8_lossy(bytes).into_owned()
}

/// The text of a move holds ASCII characters only.
pub proof fn lemma_san_text_ascii(san: San)
    ensures
        is_ascii(san_text(san)),
{
    broadcast use Square::lemma_at_idx;

    match san {
        San::Normal { role, file, rank, capture, to, promotion } => {
            let a = role_text(role);
            let b = file_text(file);
            let c = rank_text(rank);
            let d = capture_text(capture);
            let e = to.name_spec();
            let f = promotion_text(promotion);
            assert(is_ascii(a));
            assert(is_ascii(b));
            assert(is_ascii(c));
            assert(is_ascii(d));
            assert(is_ascii(e));
            assert(is_ascii(f));
            lemma_ascii_concat(a, b);
            lemma_ascii_concat(a + b, c);
            lemma_ascii_concat(a + b + c, d);
            lemma_ascii_concat(a + b + c + d, e);
            lemma_ascii_concat(a + b + c + d + e, f);
        },
        San::Put { role, to } => {
            let a = role_text(role);
            let b = seq![64u8];
            let c = to.name_spec();
            assert(is_ascii(a));
            assert(is_ascii(b));
            assert(is_ascii(c));
            lemma_ascii_concat(a, b);
            lemma_ascii_concat(a + b, c);
        },
        _ => {},
    }
}

/// Two ASCII texts make an ASCII text.
pub proof fn lemma_ascii_concat(a: Seq<u8>, b: Seq<u8>)
    requires
        is_ascii(a),
        is_ascii(b),
    ensures
        is_ascii(a + b),
{
}

impl San {
    /// Tells whether a legal move fits what the notation says.
    pub fn fits(&self, m: &Move) -> (r: bool)
        ensures
            r == san_matches(*self, *m),
    {
        match *self {
            San::Normal { file, rank, capture, promotion, .. } => match *m {
                Move::Normal { from, capture: c, promotion: p, .. } => (match file {
                    Some(f) => f == from.file(),
                    None => true,
                }) && (match rank {
                    Some(r) => r == from.rank(),
                    None => true,
                }) && capture == c.is_some() && promotion == p,
                Move::EnPassant { from, .. } => (match file {
                    Some(f) => f == from.file(),
                    None => true,
                }) && (match rank {
                    Some(r) => r == from.rank(),
                    None => true,
                }) && capture && promotion.is_none(),
                _ => false,
            },
            San::CastleShort => match *m {
                Move::Castle { king, rook } => king.file().index() < rook.file().index(),
                _ => false,
            },
            San::CastleLong => match *m {
                Move::Castle { king, rook } => rook.file().index() < king.file().index(),
                _ => false,
            },
            San::Put { .. } => match *m {
                Move::Put { .. } => true,
                _ => false,
            },
            San::Null => false,
        }
    }

    /// Tries to convert the `San` to a legal move in the context of a
    /// position.
    pub fn to_move<P: Position>(&self, pos: &P) -> (r: Result<Move, SanError>)
        ensures
            r == to_move_spec(*self, pos.state()),
    {
        let mut legals = MoveList::new();
        match *self {
            San::Normal { role, to, .. } => pos.san_candidates(role, to, &mut legals),
            San::Put { role, to } => pos.san_candidates(role, to, &mut legals),
            San::CastleShort => pos.legal_moves(&mut legals),
            San::CastleLong => pos.legal_moves(&mut legals),
            San::Null => {},
        }
        let san = *self;
        let f = |m: &Move| -> (r: bool)
            ensures
                r == san_matches(san, *m),
            { san.fits(m) };
        legals.retain_by(f, Ghost(san_match_fn(san)));
        match (legals.first(), legals.len()) {
            (Some(m), 1) => Ok(m),
            (Some(_), _) => Err(SanError::AmbiguousSan),
            (None, _) => Err(SanError::IllegalSan),
        }
    }

    /// The text of the move, as a string.
    pub fn to_string(&self) -> (r: String)
        ensures
            r@ == ascii_chars(san_text(*self)),
    {
        let bytes = self.to_bytes();
        proof {
            lemma_san_text_ascii(*self);
        }
        ascii_string(&bytes)
    }
}

impl std::str::FromStr for San {
    type Err = InvalidSan;

    fn from_str(san: &str) -> (r: Result<San, InvalidSan>)
        ensures
            r == (match parse_san(san.spec_bytes()) {
                Some(s) => Ok::<San, InvalidSan>(s),
                None => Err::<San, InvalidSan>(InvalidSan),
            }),
    {
        San::from_bytes(san.as_bytes())
    }
}

impl SanPlus {
    /// Parse SAN with its suffix.
    pub fn from_bytes(san: &[u8]) -> (r: Result<SanPlus, InvalidSan>)
        ensures
            r == (match parse_san_plus(san@) {
                Some(s) => Ok::<SanPlus, InvalidSan>(s),
                None => Err::<SanPlus, InvalidSan>(InvalidSan),
            }),
    {
        let n = san.len();
        match San::from_bytes(san) {
            Ok(result) => Ok(
                SanPlus {
                    san: result,
                    checkmate: n > 0 && san[n - 1] == 35,
                    check: n > 0 && san[n - 1] == 43,
                },
            ),
            Err(e) => Err(e),
        }
    }

    /// The text of the move with its suffix.
    pub fn to_bytes(&self) -> (r: Vec<u8>)
        ensures
            r@ == san_plus_text(*self),
    {
        let mut out = self.san.to_bytes();
        if self.checkmate {
            out.push(35);
        } else if self.check {
            out.push(43);
        }
        assert(out@ =~= san_plus_text(*self));
        out
    }

    /// The text of the move with its suffix, as a string.
    pub fn to_string(&self) -> (r: String)
        ensures
            r@ == ascii_chars(san_plus_text(*self)),
    {
        let bytes = self.to_bytes();
        proof {
            lemma_san_text_ascii(self.san);
            lemma_ascii_concat(san_text(self.san), suffix_text(self.check, self.checkmate));
        }
        ascii_string(&bytes)
    }
}

impl std::str::FromStr for SanPlus {
    type Err = InvalidSan;

    fn from_str(san: &str) -> (r: Result<SanPlus, InvalidSan>)
        ensures
            r == (match parse_san_plus(san.spec_bytes()) {
                Some(s) => Ok::<SanPlus, InvalidSan>(s),
                None => Err::<SanPlus, InvalidSan>(InvalidSan),
            }),
    {
        SanPlus::from_bytes(san.as_bytes())
    }
}

/// Converts a move to Standard Algebraic Notation including possible
/// check and checkmate suffixes.
pub fn san_plus<P: Position>(pos: P, m: &Move) -> (r: SanPlus)
    ensures
        r == san_plus_spec(pos.state(), *m),
{
    let mut pos = pos;
    let san = san(&pos, m);
    pos.play_unchecked(m);
    let checkmate = match pos.outcome() {
        Some(Outcome::Decisive { .. }) => true,
        _ => false,
    };
    SanPlus { san, checkmate, check: !checkmate && pos.checkers().any() }
}

/// Converts a move to Standard Algebraic Notation.
pub fn san<P: Position>(pos: &P, m: &Move) -> (r: San)
    ensures
        r == san_spec(pos.state(), *m),
{
    match *m {
        Move::Normal { role, from, capture, to, promotion } => {
            if role == Role::Pawn {
                San::Normal {
                    role: Role::Pawn,
                    file: if capture.is_some() {
                        Some(from.file())
                    } else {
                        None
                    },
                    rank: None,
                    capture: capture.is_some(),
                    to,
                    promotion,
                }
            } else {
                let mut legals = MoveList::new();
                pos.legal_moves(&mut legals);
                // Disambiguate.
                let mut rank = false;
                let mut file = false;
                let n = legals.len();
                let mut i: usize = 0;
                while i < n
                    invariant
                        i <= n,
                        n == legals@.len(),
                        file == (exists|j: int|
                            0 <= j < i && is_rival(role, from, to, #[trigger] legals@[j])
                                && needs_file(from, legals@[j])),
                        rank == (exists|j: int|
                            0 <= j < i && is_rival(role, from, to, #[trigger] legals@[j])
                                && !needs_file(from, legals@[j])),
                    decreases n - i,
                {
                    if let Some(Move::Normal { role: r, to: t, from: candidate, .. }) = legals.get(
                        i,
                    ) {
                        if !(role != r || to != t || from == candidate) {
                            if from.rank() == candidate.rank() || from.file() != candidate.file() {
                                file = true;
                            } else {
                                rank = true;
                            }
                        }
                    }
                    i = i + 1;
                }
                San::Normal {
                    role,
                    file: if file {
                        Some(from.file())
                    } else {
                        None
                    },
                    rank: if rank {
                        Some(from.rank())
                    } else {
                        None
                    },
                    capture: capture.is_some(),
                    to,
                    promotion,
                }
            }
        },
        Move::EnPassant { from, to } => San::Normal {
            role: Role::Pawn,
            file: Some(from.file()),
            rank: None,
            capture: true,
            to,
            promotion: None,
        },
        Move::Castle { king, rook } => if rook.file().index() < king.file().index() {
            San::CastleLong
        } else {
            San::CastleShort
        },
        Move::Put { role, to } => San::Put { role, to },
    }
}

} // verus!
