//! The moves that the rules of standard chess allow leave the king of the
//! side that moved out of check.

use vstd::prelude::*;
use crate::attack_laws::lemma_slide_back;
use crate::attacks::{between_spec, slide};
use crate::bitboard::{bit, drop_lsb, has_bit, lemma_lsb, lemma_no_bits, lsb};
use crate::board::BoardView;
use crate::color::Color;
use crate::laws::{at_most_one, kings_of, lemma_pawn_attack, pseudo_legal};
use crate::line_laws::{is_line, lemma_between, lemma_king_step, lemma_knight_step, lemma_line_has, lemma_line_some, Way};
use crate::magic::lemma_set_bits;
use crate::movegen::{is_safe_spec, slider_blockers, snipers};
use crate::pin_laws::{lemma_blocker, lemma_opened_line, lemma_stays_on_line, lemma_way_clear, moved};
use crate::position::{board_after, checkers, role_after, them, us, State};
use crate::ray_laws::{before, lemma_one_direction, lemma_slide_clear, lemma_slide_far, lemma_slide_join, lemma_slide_less, lemma_slide_part, lemma_slide_toward};
use crate::square::Square;
use crate::threats::{lemma_at_most_one_bits, lemma_no_threat, lemma_not_attacked, lemma_only_bit, lemma_patched_at, lemma_piece_at, lemma_threat, threat};
use crate::types::{Move, Role, Variant};

verus! {

/// True if no piece of the other color attacks the king of `color`, or if
/// that color has no king.
pub open spec fn king_safe(board: BoardView, color: Color) -> bool {
    match board.king_of(color) {
        Some(k) => board.attacks_to(k.idx(), color.other_spec(), board.occupied()) == 0,
        None => true,
    }
}

/// What stands on a square after a piece has moved: the piece on its
/// target, nothing where it came from, and elsewhere what stood there.
pub proof fn lemma_after_normal(s: State, m: Move, e: int)
    requires
        s.board.wf(),
        pseudo_legal(s, m),
        m is Normal,
        0 <= e < 64,
    ensures
        ({
            let after = board_after(s.board, s.turn, m);
            let a = m.from_spec().unwrap().idx();
            let b = m.to_spec().idx();
            &&& after.wf()
            &&& a != b
            &&& after.color_at(e) == (if e == b {
                Some(s.turn)
            } else if e == a {
                None
            } else {
                s.board.color_at(e)
            })
            &&& after.role_at(e) == (if e == b {
                Some(role_after(m.role_spec(), m.promotion_spec()))
            } else if e == a {
                None
            } else {
                s.board.role_at(e)
            })
            &&& has_bit(after.occupied(), e) <==> e == b || (e != a && has_bit(
                s.board.occupied(),
                e,
            ))
        }),
{
    let a = m.from_spec().unwrap().idx();
    let b = m.to_spec().idx();
    let role = role_after(m.role_spec(), m.promotion_spec());
    let promoted = has_bit(s.board.promoted, a) || m.promotion_spec().is_some();
    let lifted = s.board.without(a);
    let after = board_after(s.board, s.turn, m);
    s.board.lemma_patched_wf(bit(a), None, None, false);
    lifted.lemma_patched_wf(bit(b), Some(role), Some(s.turn), promoted);
    lemma_patched_at(s.board, a, None, None, false, e);
    lemma_patched_at(lifted, b, Some(role), Some(s.turn), promoted, e);
    lemma_piece_at(s.board, a);
    lemma_piece_at(s.board, b);
    lemma_piece_at(s.board, e);
    lemma_piece_at(after, e);
    lemma_set_bits(s.board.by_color(s.turn), s.board.by_role(m.role_spec()), a);
    assert(has_bit(s.board.by_color(s.turn), a));
}

/// A rook, bishop or queen of the other side that reaches the king after
/// a move of another piece that passed the test for the king reached it
/// before.
pub proof fn lemma_pinned(s: State, m: Move, king: Square, rook: bool, w: Way, x: int)
    requires
        s.board.wf(),
        pseudo_legal(s, m),
        m is Normal,
        m.role_spec() != Role::King,
        0 <= king.idx() < 64,
        has_bit(kings_of(s.board, s.turn), king.idx()),
        is_safe_spec(s.board, s.turn, king, m, slider_blockers(s.board, them(s), king)),
        is_line(rook, w.delta, w.dr, w.df),
        0 <= x < 64,
        x != m.to_spec().idx(),
        s.board.color_at(x) == Some(s.turn.other_spec()),
        s.board.role_at(x) == Some(Role::Queen) || s.board.role_at(x) == Some(
            if rook {
                Role::Rook
            } else {
                Role::Bishop
            },
        ),
        has_bit(slide(king.idx(), board_after(s.board, s.turn, m).occupied(), w.delta), x),
    ensures
        has_bit(slide(king.idx(), s.board.occupied(), w.delta), x),
{
    let k = king.idx();
    let a = m.from_spec().unwrap().idx();
    let b = m.to_spec().idx();
    let d = w.delta;
    let first = s.board.occupied();
    let then = board_after(s.board, s.turn, m).occupied();
    assert forall|e: int| 0 <= e < 64 implies (has_bit(then, e) <==> e == b || (e != a && has_bit(
        first,
        e,
    ))) by {
        lemma_after_normal(s, m, e);
    }
    assert(moved(first, then, a, b));
    lemma_after_normal(s, m, x);
    lemma_piece_at(s.board, k);
    lemma_piece_at(s.board, x);
    lemma_set_bits(s.board.by_color(s.turn), s.board.by_role(Role::King), k);
    if !has_bit(slide(k, first, d), x) {
        lemma_opened_line(rook, first, then, k, a, b, w, x);
        // The attacker is one of those that the test looks at.
        assert forall|e: int| 0 <= e < 64 && has_bit(0, e) implies has_bit(then, e) by {
            lemma_no_bits(e);
        }
        lemma_slide_less(k, 0, then, d, x);
        lemma_line_has(rook, k, 0, d, w.dr, w.df, x);
        let rq = s.board.rooks | s.board.queens;
        let bq = s.board.bishops | s.board.queens;
        lemma_set_bits(s.board.rooks, s.board.queens, x);
        lemma_set_bits(s.board.bishops, s.board.queens, x);
        lemma_set_bits(crate::attacks::rook_attacks_spec(k, 0), rq, x);
        lemma_set_bits(crate::attacks::bishop_attacks_spec(k, 0), bq, x);
        lemma_set_bits(
            crate::attacks::rook_attacks_spec(k, 0) & rq,
            crate::attacks::bishop_attacks_spec(k, 0) & bq,
            x,
        );
        assert(has_bit(s.board.by_role(Role::Queen), x) <==> s.board.role_at(x) == Some(
            Role::Queen,
        ));
        assert(has_bit(s.board.by_role(Role::Rook), x) <==> s.board.role_at(x) == Some(Role::Rook));
        assert(has_bit(s.board.by_role(Role::Bishop), x) <==> s.board.role_at(x) == Some(
            Role::Bishop,
        ));
        assert(has_bit(s.board.by_color(s.turn.other_spec()), x));
        lemma_set_bits(snipers(s.board, king), them(s), x);
        lemma_blocker(s.board, them(s), king, x, a);
        // So the piece stays on the line through its square and the king.
        lemma_piece_at(s.board, b);
        assert(has_bit(s.board.by_color(s.turn), k));
        assert forall|e: int| 0 <= e < 64 && has_bit(0, e) implies has_bit(first, e) by {
            lemma_no_bits(e);
        }
        lemma_slide_less(k, 0, first, d, a);
        let v = lemma_stays_on_line(rook, k, a, b, w);
        lemma_slide_far(k, 0, d, a);
        lemma_slide_far(k, 0, v.delta, b);
        lemma_slide_far(a, first, d, x);
        lemma_slide_far(k, 0, d, x);
        if v.delta == d {
            if before(d, b, x) {
                lemma_slide_clear(k, then, d, x, b);
            } else {
                lemma_slide_part(k, 0, d, a, b);
                lemma_slide_less(a, 0, first, d, x);
                lemma_way_clear(s, m, d, w.dr, w.df, x);
            }
        } else {
            lemma_slide_back(k, 0, d, a);
            lemma_no_bits(k);
            lemma_slide_join(a, 0, -d, k, b);
            lemma_way_clear(s, m, -d, -w.dr, -w.df, k);
        }
        assert(false);
    }
}

/// A piece does not threaten a square from beyond an occupied square.
pub proof fn lemma_blocked(
    board: BoardView,
    k: int,
    by: Color,
    occupied: u64,
    x: int,
    b: int,
    w: crate::line_laws::Way,
)
    requires
        0 <= x < 64,
        0 <= b < 64,
        has_bit(occupied, b),
        crate::magic::is_direction(w.delta, w.dr, w.df),
        has_bit(slide(k, 0, w.delta), b),
        has_bit(slide(b, 0, w.delta), x),
    ensures
        !threat(board, k, by, occupied, x),
{
    if !threat(board, k, by, occupied, x) {
        return ;
    }
    crate::ray_laws::lemma_slide_toward(k, 0, w.delta, w.dr, w.df, b);
    crate::ray_laws::lemma_slide_toward(b, 0, w.delta, w.dr, w.df, x);
    crate::ray_laws::lemma_slide_far(k, 0, w.delta, b);
    crate::ray_laws::lemma_slide_far(b, 0, w.delta, x);
    lemma_no_bits(b);
    crate::ray_laws::lemma_slide_join(k, 0, w.delta, b, x);
    crate::ray_laws::lemma_slide_toward(k, 0, w.delta, w.dr, w.df, x);
    match board.role_at(x) {
        Some(Role::Pawn) => {
            crate::laws::lemma_pawn_attack(by.other_spec(), k, x);
        },
        Some(Role::Knight) => {
            crate::line_laws::lemma_knight_step(k, x);
        },
        Some(Role::King) => {
            crate::line_laws::lemma_king_step(k, x);
        },
        _ => {
            let along = has_bit(crate::attacks::rook_attacks_spec(k, occupied), x);
            let v = crate::line_laws::lemma_line_some(along, k, occupied, x);
            crate::ray_laws::lemma_one_direction(k, x, w.dr, w.df, v.dr, v.df);
            crate::ray_laws::lemma_slide_clear(k, occupied, w.delta, x, b);
        },
    }
}

/// A piece that threatens the king after a move of another piece that
/// passed the test for the king threatened it before, was not captured,
/// and the piece that moved does not stand between it and the king.
pub proof fn lemma_normal_threat(s: State, m: Move, king: Square, x: int)
    requires
        s.board.wf(),
        pseudo_legal(s, m),
        m is Normal,
        m.role_spec() != Role::King,
        0 <= king.idx() < 64,
        has_bit(kings_of(s.board, s.turn), king.idx()),
        is_safe_spec(s.board, s.turn, king, m, slider_blockers(s.board, them(s), king)),
        0 <= x < 64,
        threat(
            board_after(s.board, s.turn, m),
            king.idx(),
            s.turn.other_spec(),
            board_after(s.board, s.turn, m).occupied(),
            x,
        ),
    ensures
        threat(s.board, king.idx(), s.turn.other_spec(), s.board.occupied(), x),
        x != m.to_spec().idx(),
        !has_bit(between_spec(king.idx(), x), m.to_spec().idx()),
{
    let k = king.idx();
    let b = m.to_spec().idx();
    let after = board_after(s.board, s.turn, m);
    let first = s.board.occupied();
    let then = after.occupied();
    let by = s.turn.other_spec();
    lemma_after_normal(s, m, x);
    lemma_after_normal(s, m, b);
    let role = s.board.role_at(x);
    let rooks = crate::attacks::rook_attacks_spec(k, then);
    let bishops = crate::attacks::bishop_attacks_spec(k, then);
    let on_rank = (role == Some(Role::Rook) || role == Some(Role::Queen)) && has_bit(rooks, x);
    let on_diagonal = (role == Some(Role::Bishop) || role == Some(Role::Queen)) && has_bit(
        bishops,
        x,
    );
    if on_rank {
        let w = lemma_line_some(true, k, then, x);
        lemma_pinned(s, m, king, true, w, x);
        lemma_line_has(true, k, first, w.delta, w.dr, w.df, x);
    }
    if on_diagonal {
        let w = lemma_line_some(false, k, then, x);
        lemma_pinned(s, m, king, false, w, x);
        lemma_line_has(false, k, first, w.delta, w.dr, w.df, x);
    }
    if has_bit(between_spec(k, x), b) {
        let r = lemma_between(k, x, b);
        lemma_blocked(after, k, by, then, x, b, r.1);
    }
}

/// The king of the side that moved, after a move of a piece: where it
/// was, or where it went, and none if there was none.
pub proof fn lemma_king_after(s: State, m: Move)
    requires
        s.board.wf(),
        pseudo_legal(s, m),
        m is Normal,
        m.promotion_spec() != Some(Role::King),
        at_most_one(kings_of(s.board, s.turn)),
    ensures
        board_after(s.board, s.turn, m).king_of(s.turn) == (match s.board.king_of(s.turn) {
            Some(k) => if m.role_spec() == Role::King {
                Some(m.to_spec())
            } else {
                Some(k)
            },
            None => None,
        }),
{
    broadcast use Square::lemma_idx_at;
    broadcast use Square::lemma_at_idx;

    let after = board_after(s.board, s.turn, m);
    let a = m.from_spec().unwrap().idx();
    let b = m.to_spec().idx();
    let first = kings_of(s.board, s.turn);
    let then = kings_of(after, s.turn);
    assert forall|e: int| 0 <= e < 64 implies (has_bit(then, e) <==> (if m.role_spec()
        == Role::King {
        e == b
    } else {
        has_bit(first, e)
    })) by {
        lemma_after_normal(s, m, e);
        lemma_piece_at(s.board, e);
        lemma_piece_at(s.board, a);
        lemma_piece_at(after, e);
        lemma_set_bits(s.board.by_color(s.turn), s.board.by_role(Role::King), e);
        lemma_set_bits(s.board.by_color(s.turn), s.board.by_role(Role::King), a);
        lemma_set_bits(s.board.by_color(s.turn), s.board.by_role(m.role_spec()), a);
        lemma_set_bits(after.by_color(s.turn), after.by_role(Role::King), e);
        if has_bit(first, e) && has_bit(first, a) {
            lemma_at_most_one_bits(first, a, e);
        }
    }
    crate::laws::lemma_king_of(s.board, s.turn);
    if first == 0 {
        lemma_no_bits(a);
        lemma_set_bits(s.board.by_color(s.turn), s.board.by_role(m.role_spec()), a);
        if then != 0 {
            lemma_lsb(then);
            lemma_no_bits(lsb(then));
        }
    } else {
        lemma_lsb(first);
        let k = lsb(first);
        if m.role_spec() == Role::King {
            lemma_only_bit(then, b);
        } else {
            assert forall|j: int| 0 <= j < 64 && has_bit(then, j) implies j == k by {
                lemma_at_most_one_bits(first, k, j);
            }
            lemma_only_bit(then, k);
        }
    }
}

/// A move of a pawn, knight, bishop, rook or queen that passed the test
/// for the king leaves the king out of check, if there was no check, or
/// if the piece captures the only checker or goes between it and the
/// king.
pub proof fn lemma_non_king_safe(s: State, m: Move, king: Square)
    requires
        s.board.wf(),
        s.variant != Variant::Atomic,
        s.variant != Variant::Antichess,
        at_most_one(kings_of(s.board, s.turn)),
        crate::position::king(s) == Some(king),
        pseudo_legal(s, m),
        m is Normal,
        m.role_spec() != Role::King,
        m.promotion_spec() != Some(Role::King),
        is_safe_spec(s.board, s.turn, king, m, slider_blockers(s.board, them(s), king)),
        checkers(s) == 0 || (drop_lsb(checkers(s)) == 0 && has_bit(
            between_spec(king.idx(), lsb(checkers(s))) | bit(lsb(checkers(s))),
            m.to_spec().idx(),
        )),
    ensures
        king_safe(board_after(s.board, s.turn, m), s.turn),
{
    let k = king.idx();
    let b = m.to_spec().idx();
    let by = s.turn.other_spec();
    let after = board_after(s.board, s.turn, m);
    crate::laws::lemma_king_of(s.board, s.turn);
    lemma_king_after(s, m);
    lemma_after_normal(s, m, b);
    assert forall|x: int| 0 <= x < 64 implies !threat(after, k, by, after.occupied(), x) by {
        if threat(after, k, by, after.occupied(), x) {
            lemma_normal_threat(s, m, king, x);
            lemma_threat(s.board, k, by, s.board.occupied(), x);
            let c = checkers(s);
            lemma_no_bits(x);
            lemma_at_most_one_bits(c, x, x);
            lemma_set_bits(between_spec(k, x), bit(x), b);
            crate::laws::lemma_single(x, b);
        }
    }
    lemma_no_threat(after, k, by, after.occupied());
}

/// True if the square `t` is off the lines of the rooks, bishops and
/// queens that give check to the king on `k`, but for their own squares.
pub open spec fn off_the_lines(s: State, k: int, t: int) -> bool {
    forall|x: int|
        0 <= x < 64 && #[trigger] threat(
            s.board,
            k,
            s.turn.other_spec(),
            s.board.occupied(),
            x,
        ) && (s.board.role_at(x) == Some(Role::Rook) || s.board.role_at(x) == Some(Role::Bishop)
            || s.board.role_at(x) == Some(Role::Queen)) ==> !has_bit(
            crate::attacks::ray_spec(x, k) ^ bit(x),
            t,
        )
}

/// A step of the king to a square that no piece attacks, off the lines of
/// the rooks, bishops and queens that give check, leaves the king out of
/// check.
pub proof fn lemma_king_move_safe(s: State, m: Move, king: Square)
    requires
        s.board.wf(),
        at_most_one(kings_of(s.board, s.turn)),
        crate::position::king(s) == Some(king),
        pseudo_legal(s, m),
        m is Normal,
        m.role_spec() == Role::King,
        s.board.attacks_to(m.to_spec().idx(), s.turn.other_spec(), s.board.occupied()) == 0,
        off_the_lines(s, king.idx(), m.to_spec().idx()),
    ensures
        king_safe(board_after(s.board, s.turn, m), s.turn),
{
    let a = m.from_spec().unwrap().idx();
    let t = m.to_spec().idx();
    let by = s.turn.other_spec();
    let after = board_after(s.board, s.turn, m);
    let first = s.board.occupied();
    let then = after.occupied();
    crate::laws::lemma_king_of(s.board, s.turn);
    let k = king.idx();
    lemma_set_bits(s.board.by_color(s.turn), s.board.by_role(Role::King), a);
    lemma_set_bits(s.board.by_color(s.turn), s.board.by_role(Role::King), k);
    lemma_at_most_one_bits(kings_of(s.board, s.turn), k, a);
    lemma_king_after(s, m);
    lemma_after_normal(s, m, t);
    assert forall|e: int| 0 <= e < 64 implies (has_bit(then, e) <==> e == t || (e != k && has_bit(
        first,
        e,
    ))) by {
        lemma_after_normal(s, m, e);
    }
    assert(moved(first, then, k, t));
    assert forall|e: int| 0 <= e < 64 && has_bit(0, e) implies has_bit(then, e) by {
        lemma_no_bits(e);
    }
    assert forall|e: int| 0 <= e < 64 && has_bit(0, e) implies has_bit(first, e) by {
        lemma_no_bits(e);
    }
    crate::attack_laws::lemma_rook_deltas_both_ways();
    crate::attack_laws::lemma_bishop_deltas_both_ways();
    assert forall|x: int| 0 <= x < 64 implies !threat(after, t, by, then, x) by {
        if threat(after, t, by, then, x) {
            lemma_after_normal(s, m, x);
            lemma_not_attacked(s.board, t, by, first, x);
            let role = s.board.role_at(x);
            let rook = (role == Some(Role::Rook) || role == Some(Role::Queen)) && has_bit(
                crate::attacks::rook_attacks_spec(t, then),
                x,
            );
            let w = lemma_line_some(rook, t, then, x);
            if has_bit(slide(t, first, w.delta), x) {
                lemma_line_has(rook, t, first, w.delta, w.dr, w.df, x);
            } else {
                lemma_opened_line(rook, first, then, t, k, t, w, x);
                lemma_line_has(rook, k, first, w.delta, w.dr, w.df, x);
                assert(threat(s.board, k, by, first, x));
                lemma_slide_less(t, 0, first, w.delta, k);
                lemma_slide_less(t, 0, then, w.delta, x);
                lemma_slide_less(k, 0, first, w.delta, x);
                lemma_line_has(rook, t, 0, w.delta, w.dr, w.df, k);
                lemma_line_has(rook, t, 0, w.delta, w.dr, w.df, x);
                lemma_line_has(rook, k, 0, w.delta, w.dr, w.df, x);
                crate::attack_laws::lemma_sliding_back(
                    t,
                    0,
                    crate::line_laws::line_deltas(rook),
                    k,
                );
                crate::attack_laws::lemma_sliding_back(
                    t,
                    0,
                    crate::line_laws::line_deltas(rook),
                    x,
                );
                crate::attack_laws::lemma_sliding_back(
                    k,
                    0,
                    crate::line_laws::line_deltas(rook),
                    x,
                );
                crate::line_laws::lemma_ray_has(rook, x, k, t);
                crate::threats::lemma_xor_bits(crate::attacks::ray_spec(x, k), bit(x), t);
                crate::laws::lemma_single(x, t);
            }
        }
    }
    lemma_no_threat(after, t, by, then);
}

/// The squares to which the king may step out of check are off the lines
/// of the rooks, bishops and queens that give check.
pub proof fn lemma_off_the_lines(s: State, king: Square, t: int)
    requires
        s.board.wf(),
        s.variant != Variant::Atomic,
        s.variant != Variant::Antichess,
        crate::position::king(s) == Some(king),
        0 <= king.idx() < 64,
        0 <= t < 64,
        !has_bit(
            crate::movegen::fold_or(
                checkers(s) & (s.board.bishops ^ s.board.rooks ^ s.board.queens),
                crate::movegen::each_checker(king),
                0,
            ),
            t,
        ),
    ensures
        off_the_lines(s, king.idx(), t),
{
    broadcast use Square::lemma_idx_at;

    let k = king.idx();
    let by = s.turn.other_spec();
    let kinds = s.board.bishops ^ s.board.rooks ^ s.board.queens;
    let sliders = checkers(s) & kinds;
    assert forall|x: int|
        0 <= x < 64 && #[trigger] threat(s.board, k, by, s.board.occupied(), x) && (
        s.board.role_at(x) == Some(Role::Rook) || s.board.role_at(x) == Some(Role::Bishop)
            || s.board.role_at(x) == Some(Role::Queen)) implies !has_bit(
        crate::attacks::ray_spec(x, k) ^ bit(x),
        t,
    ) by {
        lemma_threat(s.board, k, by, s.board.occupied(), x);
        lemma_piece_at(s.board, x);
        assert(has_bit(s.board.by_role(Role::Queen), x) <==> s.board.role_at(x) == Some(
            Role::Queen,
        ));
        assert(has_bit(s.board.by_role(Role::Rook), x) <==> s.board.role_at(x) == Some(Role::Rook));
        assert(has_bit(s.board.by_role(Role::Bishop), x) <==> s.board.role_at(x) == Some(
            Role::Bishop,
        ));
        crate::threats::lemma_xor_bits(s.board.bishops, s.board.rooks, x);
        crate::threats::lemma_xor_bits(s.board.bishops ^ s.board.rooks, s.board.queens, x);
        lemma_set_bits(checkers(s), kinds, x);
        if has_bit(crate::attacks::ray_spec(x, k) ^ bit(x), t) {
            crate::threats::lemma_fold_or_has(
                sliders,
                crate::movegen::each_checker(king),
                0,
                x,
                t,
            );
        }
    }
}

/// A move of a piece that the rules of standard chess allow leaves the
/// king of the side that moved out of check: no piece of the other side
/// attacks it in the position that the move gives.
pub proof fn lemma_normal_moves_safe(s: State, m: Move)
    requires
        crate::laws::well_formed(s),
        s.variant != Variant::Atomic,
        s.variant != Variant::Antichess,
        at_most_one(kings_of(s.board, s.turn)),
        crate::position::standard_moves(s).contains(m),
        m is Normal,
    ensures
        king_safe(board_after(s.board, s.turn, m), s.turn),
{
    broadcast use Square::lemma_idx_at;

    let ep = crate::movegen::en_passant(s.board, s.turn, s.ep_square);
    let free = !us(s);
    crate::laws::lemma_apart(us(s), 0, 0);
    let others = if checkers(s) == 0 {
        crate::movegen::non_king(s.board, s.turn, free) + crate::position::safe_king_moves(s, free)
            + crate::position::both_castlings(s)
    } else {
        crate::position::evasion_moves(s)
    };
    crate::laws::lemma_standard_moves(s);
    crate::candidate_laws::lemma_pin_iff(s, ep + others, ep.len() > 0, m);
    crate::candidate_laws::lemma_concat_iff(ep, others, m);
    crate::laws::lemma_en_passant(s.board, s.turn, s.ep_square);
    crate::laws::lemma_king_of(s.board, s.turn);
    let b = m.to_spec().idx();
    match crate::position::king(s) {
        None => {
            assert(others.contains(m));
            assert(checkers(s) == 0);
            let a = crate::movegen::non_king(s.board, s.turn, free);
            assert(crate::position::safe_king_moves(s, free) =~= Seq::<Move>::empty());
            assert(crate::position::both_castlings(s) =~= Seq::<Move>::empty());
            assert(others =~= a);
            crate::laws::lemma_non_king(s, free);
            lemma_king_after(s, m);
        },
        Some(king) => {
            let k = king.idx();
            let blockers = slider_blockers(s.board, them(s), king);
            lemma_no_bits(m.from_spec().unwrap().idx());
            assert(is_safe_spec(s.board, s.turn, king, m, blockers));
            if checkers(s) == 0 {
                let a = crate::movegen::non_king(s.board, s.turn, free);
                let g = crate::position::safe_king_moves(s, free);
                let c = crate::position::both_castlings(s);
                crate::candidate_laws::lemma_concat_iff(a + g, c, m);
                crate::candidate_laws::lemma_concat_iff(a, g, m);
                crate::laws::lemma_both_castlings(s);
                crate::laws::lemma_non_king(s, free);
                if a.contains(m) {
                    lemma_non_king_safe(s, m, king);
                } else {
                    assert(g.contains(m));
                    crate::candidate_laws::lemma_safe_king_iff(s.board, s.turn, king, free, m);
                    assert forall|x: int| 0 <= x < 64 implies !threat(
                        s.board,
                        k,
                        s.turn.other_spec(),
                        s.board.occupied(),
                        x,
                    ) by {
                        lemma_not_attacked(s.board, k, s.turn.other_spec(), s.board.occupied(), x);
                    }
                    lemma_king_move_safe(s, m, king);
                }
            } else {
                let all = checkers(s);
                let kinds = s.board.bishops ^ s.board.rooks ^ s.board.queens;
                let attacked = crate::movegen::fold_or(
                    all & kinds,
                    crate::movegen::each_checker(king),
                    0,
                );
                let checker = Square::at(lsb(all));
                lemma_lsb(all);
                let target = !s.board.by_color(s.turn) & !attacked;
                let g = crate::movegen::safe_king(s.board, s.turn, king, target);
                let squares = (between_spec(k, checker.idx()) | bit(checker.idx()))
                    & !s.board.by_color(s.turn);
                let a = if all != 0 && drop_lsb(all) == 0 {
                    crate::movegen::non_king(s.board, s.turn, squares)
                } else {
                    Seq::<Move>::empty()
                };
                assert(others == g + a);
                crate::candidate_laws::lemma_concat_iff(g, a, m);
                if g.contains(m) {
                    crate::candidate_laws::lemma_safe_king_iff(s.board, s.turn, king, target, m);
                    lemma_set_bits(!s.board.by_color(s.turn), !attacked, b);
                    lemma_set_bits(attacked, 0, b);
                    lemma_off_the_lines(s, king, b);
                    lemma_king_move_safe(s, m, king);
                } else {
                    crate::laws::lemma_apart(
                        us(s),
                        0,
                        between_spec(k, checker.idx()) | bit(checker.idx()),
                    );
                    crate::laws::lemma_non_king(
                        s,
                        squares,
                    );
                    lemma_set_bits(
                        between_spec(k, checker.idx()) | bit(checker.idx()),
                        !s.board.by_color(s.turn),
                        b,
                    );
                    lemma_non_king_safe(s, m, king);
                }
            }
        },
    }
}

} // verus!
