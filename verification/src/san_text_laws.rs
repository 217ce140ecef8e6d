//! Writing a move in Standard Algebraic Notation and reading the text
//! again gives the move back.

use vstd::prelude::*;
use crate::san::{
    capture_text, file_text, parse_after_role, parse_promotion, parse_san, parse_san_body,
    parse_san_plus, parse_target, promotion_text, rank_text, role_text, san_plus_text, san_text,
    square_of, suffix_text, without_suffix, San, SanPlus,
};
use crate::square::{File, Rank, Square};
use crate::types::Role;

verus! {

/// True if the squares that the notation names are on the board.
pub open spec fn on_board(san: San) -> bool {
    match san {
        San::Normal { to, .. } => 0 <= to.idx() < 64,
        San::Put { to, .. } => 0 <= to.idx() < 64,
        _ => true,
    }
}

/// The name of a square is read as that square.
pub proof fn lemma_read_name(s: Seq<u8>, i: int, to: Square)
    requires
        0 <= to.idx() < 64,
        0 <= i,
        i + 2 <= s.len(),
        s.subrange(i, i + 2) == to.name_spec(),
    ensures
        parse_target(s, i) == Some(to),
        97 <= s[i] <= 104,
        49 <= s[i + 1] <= 56,
{
    broadcast use Square::lemma_at_idx;

    let name = to.name_spec();
    assert(s[i] == s.subrange(i, i + 2)[0]);
    assert(s[i + 1] == s.subrange(i, i + 2)[1]);
    let f = File::at(to.idx() % 8);
    let r = Rank::at(to.idx() / 8);
    assert(f.idx() == to.idx() % 8);
    assert(r.idx() == to.idx() / 8);
    assert(Square::at(to.idx()) == to);
}

/// The text of a promotion at the end of a text is read as that
/// promotion.
pub proof fn lemma_read_promotion(s: Seq<u8>, i: int, promotion: Option<Role>)
    requires
        0 <= i <= s.len(),
        s.subrange(i, s.len() as int) == promotion_text(promotion),
    ensures
        parse_promotion(s, i) == Some(promotion),
        promotion.is_some() ==> i < s.len() && s[i] == 61,
        promotion.is_none() ==> i == s.len(),
{
    let t = s.subrange(i, s.len() as int);
    match promotion {
        Some(role) => {
            assert(t.len() == 2);
            assert(s[i] == t[0]);
            assert(s[i + 1] == t[1]);
            match role {
                Role::Pawn => {},
                Role::Knight => {},
                Role::Bishop => {},
                Role::Rook => {},
                Role::Queen => {},
                Role::King => {},
            }
        },
        None => {
            assert(t.len() == 0);
        },
    }
}

/// True if the text holds, from position `i` on, what is written after
/// the letter of the piece: the file and the rank that tell the piece
/// apart, the sign of a capture, the target square and the promotion.
pub open spec fn laid_out(
    s: Seq<u8>,
    i: int,
    file: Option<File>,
    rank: Option<Rank>,
    capture: bool,
    to: Square,
    promotion: Option<Role>,
) -> bool {
    let j = if file.is_some() {
        i + 1
    } else {
        i
    };
    let k = if rank.is_some() {
        j + 1
    } else {
        j
    };
    let at = if capture {
        k + 1
    } else {
        k
    };
    &&& 0 <= i
    &&& at + 2 <= s.len()
    &&& (file matches Some(f) ==> s[i] == 97 + f.idx())
    &&& (rank matches Some(r) ==> s[j] == 49 + r.idx())
    &&& (capture ==> s[k] == 120)
    &&& parse_target(s, at) == Some(to)
    &&& 97 <= s[at] <= 104
    &&& 49 <= s[at + 1] <= 56
    &&& parse_promotion(s, at + 2) == Some(promotion)
    &&& (promotion.is_some() ==> at + 2 < s.len() && s[at + 2] == 61)
    &&& (promotion.is_none() ==> at + 2 == s.len())
}

/// The text of a move holds its parts one after the other.
pub proof fn lemma_laid_out(
    s: Seq<u8>,
    i: int,
    file: Option<File>,
    rank: Option<Rank>,
    capture: bool,
    to: Square,
    promotion: Option<Role>,
)
    requires
        0 <= to.idx() < 64,
        0 <= i <= s.len(),
        s.subrange(i, s.len() as int) == file_text(file) + rank_text(rank) + capture_text(capture)
            + to.name_spec() + promotion_text(promotion),
    ensures
        laid_out(s, i, file, rank, capture, to, promotion),
{
    let t = s.subrange(i, s.len() as int);
    let a = file_text(file);
    let b = rank_text(rank);
    let c = capture_text(capture);
    let n = to.name_spec();
    let p = promotion_text(promotion);
    let la = a.len() as int;
    let lb = b.len() as int;
    let lc = c.len() as int;
    assert(t.len() == la + lb + lc + 2 + p.len());
    let at = i + la + lb + lc;
    assert(s.subrange(at, at + 2) =~= n) by {
        assert forall|j: int| 0 <= j < 2 implies s.subrange(at, at + 2)[j] == n[j] by {
            assert(s[at + j] == t[la + lb + lc + j]);
        }
    }
    assert(s.subrange(at + 2, s.len() as int) =~= p) by {
        assert forall|j: int| 0 <= j < p.len() implies s.subrange(at + 2, s.len() as int)[j]
            == p[j] by {
            assert(s[at + 2 + j] == t[la + lb + lc + 2 + j]);
        }
    }
    lemma_read_name(s, at, to);
    lemma_read_promotion(s, at + 2, promotion);
    if file.is_some() {
        assert(s[i] == t[0]);
        assert(t[0] == a[0]);
    }
    if rank.is_some() {
        assert(s[i + la] == t[la]);
        assert(t[la] == b[0]);
    }
    if capture {
        assert(s[i + la + lb] == t[la + lb]);
        assert(t[la + lb] == c[0]);
    }
}

/// A text that holds the parts of a move one after the other is read as
/// that move.
pub proof fn lemma_read_laid_out(
    s: Seq<u8>,
    i: int,
    role: Role,
    file: Option<File>,
    rank: Option<Rank>,
    capture: bool,
    to: Square,
    promotion: Option<Role>,
)
    requires
        laid_out(s, i, file, rank, capture, to, promotion),
    ensures
        parse_after_role(s, role, i) == Some(
            San::Normal { role, file, rank, capture, to, promotion },
        ),
{
    match file {
        Some(f) => {
            assert(File::at(f.idx()) == f);
        },
        None => {},
    }
    match rank {
        Some(r) => {
            assert(Rank::at(r.idx()) == r);
        },
        None => {},
    }
    if file.is_none() && rank.is_none() && !capture {
        let f = File::at(s[i] - 97);
        let r = Rank::at(s[i + 1] - 49);
        assert(crate::san::file_of(s[i]) == Some(f));
        assert(crate::san::rank_of(s[i + 1]) == Some(r));
        assert(parse_target(s, i) == Some(square_of(f, r)));
    }
}

/// What follows the letter of the piece in the text of a move is read as
/// it was written.
pub proof fn lemma_read_after_role(
    s: Seq<u8>,
    i: int,
    role: Role,
    file: Option<File>,
    rank: Option<Rank>,
    capture: bool,
    to: Square,
    promotion: Option<Role>,
)
    requires
        0 <= to.idx() < 64,
        0 <= i <= s.len(),
        s.subrange(i, s.len() as int) == file_text(file) + rank_text(rank) + capture_text(capture)
            + to.name_spec() + promotion_text(promotion),
    ensures
        parse_after_role(s, role, i) == Some(
            San::Normal { role, file, rank, capture, to, promotion },
        ),
{
    lemma_laid_out(s, i, file, rank, capture, to, promotion);
    lemma_read_laid_out(s, i, role, file, rank, capture, to, promotion);
}

/// True for a byte that the text of a move holds before its promotion: a
/// small letter from `a` to `h`, a digit from `1` to `8`, or `x`.
pub open spec fn is_plain(b: u8) -> bool {
    97 <= b <= 104 || 49 <= b <= 56 || b == 120
}

/// The first two bytes of what follows the letter of the piece are small
/// letters, digits or `x`, and the last byte of the text is a digit or a
/// capital letter.
pub proof fn lemma_plain_bytes(
    s: Seq<u8>,
    i: int,
    file: Option<File>,
    rank: Option<Rank>,
    capture: bool,
    to: Square,
    promotion: Option<Role>,
)
    requires
        0 <= to.idx() < 64,
        0 <= i <= s.len(),
        s.subrange(i, s.len() as int) == file_text(file) + rank_text(rank) + capture_text(capture)
            + to.name_spec() + promotion_text(promotion),
    ensures
        i + 2 <= s.len(),
        is_plain(s[i]),
        is_plain(s[i + 1]),
        s.last() != 35,
        s.last() != 43,
{
    lemma_laid_out(s, i, file, rank, capture, to, promotion);
    match promotion {
        Some(role) => {
            let p = promotion_text(promotion);
            let t = s.subrange(i, s.len() as int);
            assert(s.last() == t[t.len() - 1]);
            assert(t[t.len() - 1] == p[1]);
        },
        None => {},
    }
}

/// A text that starts with the capital letter of a piece, or with none for
/// a pawn, and goes on with small letters, digits or `x`, is read as the
/// move of that piece that the rest of the text describes.
pub proof fn lemma_read_piece(s: Seq<u8>, role: Role, san: San)
    requires
        s.len() >= 2,
        is_plain(s[1]),
        role == Role::Pawn ==> is_plain(s[0]) && parse_after_role(s, role, 0) == Some(san),
        role != Role::Pawn ==> s[0] == role.char_spec() - 32 && parse_after_role(s, role, 1)
            == Some(san),
    ensures
        parse_san_body(s) == Some(san),
{
    match role {
        Role::Pawn => {},
        Role::Knight => {},
        Role::Bishop => {},
        Role::Rook => {},
        Role::Queen => {},
        Role::King => {},
    }
    assert(s != crate::san::null_text()) by {
        if s == crate::san::null_text() {
            assert(s[0] == 45);
        }
    }
    assert(s != crate::san::short_text()) by {
        if s == crate::san::short_text() {
            assert(s[0] == 79);
        }
    }
    assert(s != crate::san::long_text()) by {
        if s == crate::san::long_text() {
            assert(s[0] == 79);
        }
    }
}

/// The text of the move of a piece is read as that move.
pub proof fn lemma_read_normal(san: San)
    requires
        on_board(san),
        san is Normal,
    ensures
        parse_san_body(san_text(san)) == Some(san),
        san_text(san).len() >= 2,
        san_text(san).last() != 35,
        san_text(san).last() != 43,
{
    let s = san_text(san);
    match san {
        San::Normal { role, file, rank, capture, to, promotion } => {
            let head = role_text(role);
            let rest = file_text(file) + rank_text(rank) + capture_text(capture) + to.name_spec()
                + promotion_text(promotion);
            assert(s =~= head + rest);
            let i = head.len() as int;
            assert(s.subrange(i, s.len() as int) =~= rest);
            lemma_plain_bytes(s, i, file, rank, capture, to, promotion);
            lemma_read_after_role(s, i, role, file, rank, capture, to, promotion);
            if role != Role::Pawn {
                assert(s[0] == head[0]);
            }
            lemma_read_piece(s, role, san);
        },
        _ => {},
    }
}

/// The text of a drop is read as that drop.
pub proof fn lemma_read_put(san: San)
    requires
        on_board(san),
        san is Put,
    ensures
        parse_san_body(san_text(san)) == Some(san),
        san_text(san).len() >= 2,
        san_text(san).last() != 35,
        san_text(san).last() != 43,
{
    let s = san_text(san);
    match san {
        San::Put { role, to } => {
            let head = role_text(role);
            assert(s =~= head + seq![64u8] + to.name_spec());
            let i = head.len() as int;
            assert(s.subrange(i + 1, i + 3) =~= to.name_spec());
            lemma_read_name(s, i + 1, to);
            match role {
                Role::Pawn => {},
                Role::Knight => {},
                Role::Bishop => {},
                Role::Rook => {},
                Role::Queen => {},
                Role::King => {},
            }
            assert(s[i] == 64);
            if role != Role::Pawn {
                assert(s[0] == head[0]);
            }
            assert(s != crate::san::null_text()) by {
                if s == crate::san::null_text() {
                    assert(s.len() == 2);
                }
            }
            assert(s != crate::san::short_text()) by {
                if s == crate::san::short_text() {
                    assert(s[0] == 79);
                }
            }
            assert(s != crate::san::long_text()) by {
                if s == crate::san::long_text() {
                    assert(s.len() == 5);
                }
            }
        },
        _ => {},
    }
}

/// The text of a move without suffix is read as that move.
pub proof fn lemma_read_body(san: San)
    requires
        on_board(san),
    ensures
        parse_san_body(san_text(san)) == Some(san),
        san_text(san).len() >= 2,
        san_text(san).last() != 35,
        san_text(san).last() != 43,
{
    let s = san_text(san);
    match san {
        San::Normal { .. } => {
            lemma_read_normal(san);
        },
        San::Put { .. } => {
            lemma_read_put(san);
        },
        San::CastleShort => {
            assert(s != crate::san::null_text()) by {
                if s == crate::san::null_text() {
                    assert(s.len() == 2);
                }
            }
        },
        San::CastleLong => {
            assert(s != crate::san::null_text()) by {
                if s == crate::san::null_text() {
                    assert(s.len() == 2);
                }
            }
            assert(s != crate::san::short_text()) by {
                if s == crate::san::short_text() {
                    assert(s.len() == 3);
                }
            }
        },
        San::Null => {},
    }
}

/// Reading the text of a move in Standard Algebraic Notation gives the
/// move that was written.
pub proof fn lemma_read_written(san: San)
    requires
        on_board(san),
    ensures
        parse_san(san_text(san)) == Some(san),
{
    lemma_read_body(san);
}

/// Reading the text of a move with its suffix gives what was written,
/// where the suffix is for check or for checkmate and not for both.
pub proof fn lemma_read_written_plus(san: SanPlus)
    requires
        on_board(san.san),
        !(san.check && san.checkmate),
    ensures
        parse_san_plus(san_plus_text(san)) == Some(san),
{
    lemma_read_body(san.san);
    let body = san_text(san.san);
    let suffix = suffix_text(san.check, san.checkmate);
    let text = san_plus_text(san);
    if suffix.len() > 0 {
        assert(text.last() == suffix[0]);
        assert(text.drop_last() =~= body);
    } else {
        assert(text =~= body);
    }
    assert(without_suffix(text) == body);
}

} // verus!
