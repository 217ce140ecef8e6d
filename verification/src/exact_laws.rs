//! The moves that the rules of standard chess allow are exactly the moves
//! of the pieces that leave the king out of check.

use vstd::prelude::*;
use crate::attacks::{aligned_spec, between_spec, slide};
use crate::bitboard::{bit, has_bit, lemma_no_bits};
use crate::laws::{at_most_one, kings_of, lemma_single, pseudo_legal};
use crate::line_laws::{
    is_line, lemma_between_has, lemma_line_has, lemma_line_some, lemma_ray_has, line_attacks, Way,
};
use crate::magic::lemma_set_bits;
use crate::movegen::{each_sniper, is_safe_spec, slider_blockers, snipers};
use crate::position::{board_after, them, State};
use crate::ray_laws::{
    before, lemma_slide_clear, lemma_slide_far, lemma_slide_less, lemma_slide_part,
    lemma_slide_upto,
};
use crate::safety::{king_safe, lemma_after_normal, lemma_king_after};
use crate::square::Square;
use crate::threats::{
    lemma_fold_or_some, lemma_not_attacked, lemma_piece_at, lemma_threat, threat,
};
use crate::types::{Move, Role};

verus! {

/// A piece that threatens the king threatens it after a move of another
/// piece that neither captures it nor goes between it and the king.
pub proof fn lemma_threat_stays(s: State, m: Move, k: int, x: int)
    requires
        s.board.wf(),
        pseudo_legal(s, m),
        m is Normal,
        0 <= k < 64,
        0 <= x < 64,
        k != m.from_spec().unwrap().idx(),
        threat(s.board, k, s.turn.other_spec(), s.board.occupied(), x),
        x != m.to_spec().idx(),
        !has_bit(between_spec(k, x), m.to_spec().idx()),
    ensures
        threat(
            board_after(s.board, s.turn, m),
            k,
            s.turn.other_spec(),
            board_after(s.board, s.turn, m).occupied(),
            x,
        ),
{
    let a = m.from_spec().unwrap().idx();
    let b = m.to_spec().idx();
    let after = board_after(s.board, s.turn, m);
    let first = s.board.occupied();
    let then = after.occupied();
    lemma_after_normal(s, m, x);
    crate::secure::lemma_mover(s, m);
    let role = s.board.role_at(x);
    if !crate::legality::is_stepper(role) {
        let along = (role == Some(Role::Rook) || role == Some(Role::Queen)) && has_bit(
            crate::attacks::rook_attacks_spec(k, first),
            x,
        );
        let w = lemma_line_some(along, k, first, x);
        assert forall|e: int| 0 <= e < 64 && has_bit(0, e) implies has_bit(first, e) by {
            lemma_no_bits(e);
        }
        lemma_slide_less(k, 0, first, w.delta, x);
        assert forall|i: int|
            0 <= i < 64 && before(w.delta, i, x) && has_bit(slide(k, 0, w.delta), i) implies has_bit(
            first,
            i,
        ) == has_bit(then, i) by {
            lemma_slide_clear(k, first, w.delta, x, i);
            lemma_after_normal(s, m, i);
            if i == b {
                lemma_slide_part(k, 0, w.delta, b, x);
                lemma_between_has(along, k, x, b, w.delta, w.dr, w.df);
            }
        }
        lemma_slide_upto(k, first, then, w.delta, x);
        lemma_line_has(along, k, then, w.delta, w.dr, w.df, x);
    }
}

/// A move of a pawn, knight, bishop, rook or queen that leaves the king out
/// of check passes the test for the king: the piece is none of those that
/// stand alone between the king and a rook, bishop or queen of the other
/// side, or it stays on its line with the king.
pub proof fn lemma_safe_passes(s: State, m: Move, king: Square)
    requires
        s.board.wf(),
        pseudo_legal(s, m),
        m is Normal,
        m.role_spec() != Role::King,
        m.promotion_spec() != Some(Role::King),
        at_most_one(kings_of(s.board, s.turn)),
        crate::position::king(s) == Some(king),
        king_safe(board_after(s.board, s.turn, m), s.turn),
    ensures
        is_safe_spec(s.board, s.turn, king, m, slider_blockers(s.board, them(s), king)),
{
    broadcast use Square::lemma_idx_at;

    let k = king.idx();
    let a = m.from_spec().unwrap().idx();
    let b = m.to_spec().idx();
    let by = s.turn.other_spec();
    let after = board_after(s.board, s.turn, m);
    let first = s.board.occupied();
    let then = after.occupied();
    let blockers = slider_blockers(s.board, them(s), king);
    crate::laws::lemma_king_of(s.board, s.turn);
    lemma_king_after(s, m);
    crate::secure::lemma_mover(s, m);
    lemma_piece_at(s.board, k);
    lemma_set_bits(s.board.by_color(s.turn), s.board.by_role(Role::King), k);
    if has_bit(blockers, a) && !aligned_spec(a, b, k) {
        lemma_no_bits(a);
        let x = lemma_fold_or_some(snipers(s.board, king) & them(s), each_sniper(s.board, king), 0, a);
        let between = between_spec(k, x) & first;
        assert(each_sniper(s.board, king)(Square::at(x)) == between);
        lemma_set_bits(between_spec(k, x), first, a);
        // The piece behind is a rook, bishop or queen of the other side on a
        // line with the king.
        lemma_set_bits(snipers(s.board, king), them(s), x);
        let rq = s.board.rooks | s.board.queens;
        let bq = s.board.bishops | s.board.queens;
        lemma_set_bits(s.board.rooks, s.board.queens, x);
        lemma_set_bits(s.board.bishops, s.board.queens, x);
        lemma_set_bits(crate::attacks::rook_attacks_spec(k, 0), rq, x);
        lemma_set_bits(crate::attacks::bishop_attacks_spec(k, 0), bq, x);
        lemma_set_bits(
            crate::attacks::rook_attacks_spec(k, 0) & rq,
            crate::attacks::bishop_attacks_spec(k, 0) & bq,
            x,
        );
        lemma_piece_at(s.board, x);
        let role = s.board.role_at(x);
        assert(has_bit(s.board.by_role(Role::Queen), x) <==> role == Some(Role::Queen));
        assert(has_bit(s.board.by_role(Role::Rook), x) <==> role == Some(Role::Rook));
        assert(has_bit(s.board.by_role(Role::Bishop), x) <==> role == Some(Role::Bishop));
        assert(has_bit(s.board.by_color(by), x) <==> s.board.color_at(x) == Some(by));
        let along = (role == Some(Role::Rook) || role == Some(Role::Queen)) && has_bit(
            crate::attacks::rook_attacks_spec(k, 0),
            x,
        );
        let w = lemma_line_some(along, k, 0, x);
        let r = crate::line_laws::lemma_between(k, x, a);
        crate::ray_laws::lemma_slide_toward(k, 0, r.1.delta, r.1.dr, r.1.df, x);
        crate::ray_laws::lemma_one_direction(k, x, w.dr, w.df, r.1.dr, r.1.df);
        // The target is off the line, or the move would stay on it.
        crate::attack_laws::lemma_rook_deltas_both_ways();
        crate::attack_laws::lemma_bishop_deltas_both_ways();
        lemma_line_has(along, k, 0, w.delta, w.dr, w.df, a);
        crate::attack_laws::lemma_sliding_back(k, 0, crate::line_laws::line_deltas(along), a);
        if b == x || has_bit(between_spec(k, x), b) {
            if b == x {
                lemma_line_has(along, a, 0, w.delta, w.dr, w.df, x);
                lemma_line_has(along, k, 0, w.delta, w.dr, w.df, x);
            } else {
                let q = crate::line_laws::lemma_between(k, x, b);
                crate::ray_laws::lemma_slide_toward(k, 0, q.1.delta, q.1.dr, q.1.df, x);
                crate::ray_laws::lemma_one_direction(k, x, w.dr, w.df, q.1.dr, q.1.df);
                lemma_line_has(along, k, 0, w.delta, w.dr, w.df, b);
                lemma_slide_far(k, 0, w.delta, a);
                lemma_slide_far(k, 0, w.delta, b);
                if before(w.delta, a, b) {
                    lemma_slide_part(k, 0, w.delta, a, b);
                    lemma_line_has(along, a, 0, w.delta, w.dr, w.df, b);
                } else {
                    lemma_slide_part(k, 0, w.delta, b, a);
                    lemma_line_has(along, b, 0, w.delta, w.dr, w.df, a);
                    crate::attack_laws::lemma_sliding_back(
                        b,
                        0,
                        crate::line_laws::line_deltas(along),
                        a,
                    );
                }
            }
            crate::attack_laws::lemma_sliding_back(k, 0, crate::line_laws::line_deltas(along), b);
            lemma_ray_has(along, a, b, k);
        }
        // So the line is open after the move.
        lemma_after_normal(s, m, x);
        assert forall|i: int|
            0 <= i < 64 && before(w.delta, i, x) && has_bit(slide(k, 0, w.delta), i) implies has_bit(
            0,
            i,
        ) == has_bit(then, i) by {
            lemma_no_bits(i);
            lemma_after_normal(s, m, i);
            lemma_slide_part(k, 0, w.delta, i, x);
            lemma_between_has(along, k, x, i, w.delta, w.dr, w.df);
            lemma_set_bits(between_spec(k, x), first, i);
            if i != a && has_bit(first, i) {
                crate::threats::lemma_at_most_one_bits(between, a, i);
            }
        }
        lemma_slide_upto(k, 0, then, w.delta, x);
        lemma_line_has(along, k, then, w.delta, w.dr, w.df, x);
        assert(threat(after, k, by, then, x));
        lemma_not_attacked(after, k, by, then, x);
    }
}

/// A move of a pawn, knight, bishop, rook or queen that leaves the king out
/// of check captures each piece that gave check or goes between it and
/// the king.
pub proof fn lemma_threat_removed(s: State, m: Move, king: Square, x: int)
    requires
        s.board.wf(),
        pseudo_legal(s, m),
        m is Normal,
        m.role_spec() != Role::King,
        m.promotion_spec() != Some(Role::King),
        at_most_one(kings_of(s.board, s.turn)),
        crate::position::king(s) == Some(king),
        king_safe(board_after(s.board, s.turn, m), s.turn),
        0 <= x < 64,
        threat(s.board, king.idx(), s.turn.other_spec(), s.board.occupied(), x),
    ensures
        x == m.to_spec().idx() || has_bit(between_spec(king.idx(), x), m.to_spec().idx()),
{
    let k = king.idx();
    let b = m.to_spec().idx();
    let after = board_after(s.board, s.turn, m);
    crate::laws::lemma_king_of(s.board, s.turn);
    lemma_king_after(s, m);
    crate::secure::lemma_mover(s, m);
    lemma_piece_at(s.board, k);
    lemma_set_bits(s.board.by_color(s.turn), s.board.by_role(Role::King), k);
    if x != b && !has_bit(between_spec(k, x), b) {
        lemma_threat_stays(s, m, k, x);
        lemma_after_normal(s, m, x);
        lemma_not_attacked(after, k, s.turn.other_spec(), after.occupied(), x);
    }
}

/// Of two pieces in one direction from a square, the one behind does not
/// threaten the square.
pub proof fn lemma_one_in_line(
    board: crate::board::BoardView,
    k: int,
    by: crate::color::Color,
    x: int,
    y: int,
    w: Way,
)
    requires
        board.wf(),
        0 <= x < 64,
        0 <= y < 64,
        x != y,
        crate::magic::is_direction(w.delta, w.dr, w.df),
        has_bit(slide(k, 0, w.delta), x),
        has_bit(slide(k, 0, w.delta), y),
        board.color_at(x).is_some(),
        board.color_at(y).is_some(),
    ensures
        !(threat(board, k, by, board.occupied(), x) && threat(board, k, by, board.occupied(), y)),
{
    lemma_piece_at(board, x);
    lemma_piece_at(board, y);
    lemma_slide_far(k, 0, w.delta, x);
    lemma_slide_far(k, 0, w.delta, y);
    if before(w.delta, x, y) {
        lemma_slide_part(k, 0, w.delta, x, y);
        crate::safety::lemma_blocked(board, k, by, board.occupied(), y, x, w);
    } else {
        lemma_slide_part(k, 0, w.delta, y, x);
        crate::safety::lemma_blocked(board, k, by, board.occupied(), x, y, w);
    }
}

/// A move of a pawn, knight, bishop, rook or queen leaves the king out of
/// check only if at most one piece gave check, and then it captures that
/// piece or goes between it and the king.
pub proof fn lemma_single_checker(s: State, m: Move, king: Square)
    requires
        s.board.wf(),
        s.variant != crate::types::Variant::Atomic,
        s.variant != crate::types::Variant::Antichess,
        pseudo_legal(s, m),
        m is Normal,
        m.role_spec() != Role::King,
        m.promotion_spec() != Some(Role::King),
        at_most_one(kings_of(s.board, s.turn)),
        crate::position::king(s) == Some(king),
        king_safe(board_after(s.board, s.turn, m), s.turn),
        crate::position::checkers(s) != 0,
    ensures
        crate::bitboard::drop_lsb(crate::position::checkers(s)) == 0,
        has_bit(
            between_spec(king.idx(), crate::bitboard::lsb(crate::position::checkers(s))) | bit(
                crate::bitboard::lsb(crate::position::checkers(s)),
            ),
            m.to_spec().idx(),
        ),
{
    let k = king.idx();
    let b = m.to_spec().idx();
    let by = s.turn.other_spec();
    let first = s.board.occupied();
    let c = crate::position::checkers(s);
    crate::laws::lemma_king_of(s.board, s.turn);
    crate::bitboard::lemma_lsb(c);
    let x = crate::bitboard::lsb(c);
    lemma_threat(s.board, k, by, first, x);
    lemma_threat_removed(s, m, king, x);
    lemma_set_bits(between_spec(k, x), bit(x), b);
    lemma_single(x, b);
    let rest = crate::bitboard::drop_lsb(c);
    if rest != 0 {
        crate::bitboard::lemma_lsb(rest);
        let y = crate::bitboard::lsb(rest);
        crate::bitboard::lemma_drop_lsb_bits(c, y);
        lemma_threat(s.board, k, by, first, y);
        lemma_threat_removed(s, m, king, y);
        lemma_piece_at(s.board, x);
        lemma_piece_at(s.board, y);
        if b == x {
            let q = crate::line_laws::lemma_between(k, y, b);
            crate::safety::lemma_blocked(s.board, k, by, first, y, b, q.1);
        } else if b == y {
            let q = crate::line_laws::lemma_between(k, x, b);
            crate::safety::lemma_blocked(s.board, k, by, first, x, b, q.1);
        } else {
            let p = crate::line_laws::lemma_between(k, x, b);
            let q = crate::line_laws::lemma_between(k, y, b);
            crate::ray_laws::lemma_slide_toward(k, 0, p.1.delta, p.1.dr, p.1.df, b);
            crate::ray_laws::lemma_slide_toward(k, 0, q.1.delta, q.1.dr, q.1.df, b);
            crate::ray_laws::lemma_one_direction(k, b, p.1.dr, p.1.df, q.1.dr, q.1.df);
            lemma_one_in_line(s.board, k, by, x, y, p.1);
        }
    }
}

/// Which squares are occupied after a step of the king.
pub proof fn lemma_king_step_taken(s: State, m: Move, king: Square)
    requires
        s.board.wf(),
        pseudo_legal(s, m),
        m is Normal,
        m.role_spec() == Role::King,
        at_most_one(kings_of(s.board, s.turn)),
        crate::position::king(s) == Some(king),
    ensures
        m.from_spec() == Some(king),
        0 <= king.idx() < 64,
        king.idx() != m.to_spec().idx(),
        has_bit(crate::attacks::king_attacks_spec(king.idx()), m.to_spec().idx()),
        crate::pin_laws::moved(
            s.board.occupied(),
            board_after(s.board, s.turn, m).occupied(),
            king.idx(),
            m.to_spec().idx(),
        ),
        board_after(s.board, s.turn, m).king_of(s.turn) == Some(m.to_spec()),
        board_after(s.board, s.turn, m).wf(),
{
    broadcast use Square::lemma_idx_at;
    broadcast use Square::lemma_at_idx;

    let a = m.from_spec().unwrap().idx();
    let k = king.idx();
    crate::laws::lemma_king_of(s.board, s.turn);
    lemma_set_bits(s.board.by_color(s.turn), s.board.by_role(Role::King), a);
    lemma_set_bits(s.board.by_color(s.turn), s.board.by_role(Role::King), k);
    crate::threats::lemma_at_most_one_bits(kings_of(s.board, s.turn), k, a);
    lemma_king_after(s, m);
    lemma_after_normal(s, m, 0);
    let first = s.board.occupied();
    let then = board_after(s.board, s.turn, m).occupied();
    let t = m.to_spec().idx();
    assert forall|e: int| 0 <= e < 64 implies (has_bit(then, e) <==> e == t || (e != k && has_bit(
        first,
        e,
    ))) by {
        lemma_after_normal(s, m, e);
    }
    assert(crate::pin_laws::moved(first, then, k, t));
}

/// A step of the king that leaves it out of check goes to a square that no
/// piece of the other side attacks before the step.
pub proof fn lemma_safe_step(s: State, m: Move, king: Square)
    requires
        s.board.wf(),
        pseudo_legal(s, m),
        m is Normal,
        m.role_spec() == Role::King,
        at_most_one(kings_of(s.board, s.turn)),
        crate::position::king(s) == Some(king),
        king_safe(board_after(s.board, s.turn, m), s.turn),
    ensures
        s.board.attacks_to(m.to_spec().idx(), s.turn.other_spec(), s.board.occupied()) == 0,
{
    let k = king.idx();
    let t = m.to_spec().idx();
    let by = s.turn.other_spec();
    let after = board_after(s.board, s.turn, m);
    let first = s.board.occupied();
    let then = after.occupied();
    lemma_king_step_taken(s, m, king);
    crate::secure::lemma_mover(s, m);
    assert forall|x: int| 0 <= x < 64 implies !threat(s.board, t, by, first, x) by {
        if threat(s.board, t, by, first, x) {
            lemma_after_normal(s, m, x);
            lemma_piece_at(s.board, x);
            let role = s.board.role_at(x);
            match role {
                Some(Role::Pawn) => {
                    crate::laws::lemma_pawn_attack(s.turn, t, x);
                },
                Some(Role::Knight) => {
                    crate::line_laws::lemma_knight_step(t, x);
                },
                Some(Role::King) => {
                    crate::line_laws::lemma_king_step(t, x);
                },
                _ => {
                    let along = (role == Some(Role::Rook) || role == Some(Role::Queen)) && has_bit(
                        crate::attacks::rook_attacks_spec(t, first),
                        x,
                    );
                    let w = lemma_line_some(along, t, first, x);
                    lemma_slide_far(t, first, w.delta, x);
                    assert forall|i: int|
                        0 <= i < 64 && before(w.delta, i, x) && has_bit(
                            slide(t, 0, w.delta),
                            i,
                        ) implies has_bit(first, i) == has_bit(then, i) by {
                        lemma_slide_clear(t, first, w.delta, x, i);
                        lemma_slide_far(t, 0, w.delta, i);
                    }
                    lemma_slide_upto(t, first, then, w.delta, x);
                    lemma_line_has(along, t, then, w.delta, w.dr, w.df, x);
                },
            }
            assert(threat(after, t, by, then, x));
            lemma_not_attacked(after, t, by, then, x);
        }
    }
    crate::threats::lemma_no_threat(s.board, t, by, first);
}

/// A rook, bishop or queen that gives check, on whose line with the king a
/// square lies that is marked as attacked through the king.
pub struct LineCheck {
    pub checker: int,
    pub along: bool,
    pub way: Way,
    pub to: Way,
}

/// A square that is marked as attacked through the king lies on the line
/// of a rook, bishop or queen that gives check, on either side of the
/// king, and is not the square of that piece.
pub proof fn lemma_line_checker(s: State, king: Square, t: int) -> (r: LineCheck)
    requires
        s.board.wf(),
        s.variant != crate::types::Variant::Atomic,
        s.variant != crate::types::Variant::Antichess,
        crate::position::king(s) == Some(king),
        0 <= king.idx() < 64,
        0 <= t < 64,
        t != king.idx(),
        has_bit(
            crate::movegen::fold_or(
                crate::position::checkers(s) & (s.board.bishops ^ s.board.rooks ^ s.board.queens),
                crate::movegen::each_checker(king),
                0,
            ),
            t,
        ),
    ensures
        0 <= r.checker < 64,
        r.checker != t,
        s.board.color_at(r.checker) == Some(s.turn.other_spec()),
        s.board.role_at(r.checker) == Some(Role::Queen) || s.board.role_at(r.checker) == Some(
            if r.along {
                Role::Rook
            } else {
                Role::Bishop
            },
        ),
        is_line(r.along, r.way.delta, r.way.dr, r.way.df),
        has_bit(slide(king.idx(), s.board.occupied(), r.way.delta), r.checker),
        is_line(r.along, r.to.delta, r.to.dr, r.to.df),
        has_bit(slide(king.idx(), 0, r.to.delta), t),
        r.to.delta == r.way.delta || r.to.delta == -r.way.delta,
{
    broadcast use Square::lemma_idx_at;

    let k = king.idx();
    let by = s.turn.other_spec();
    let first = s.board.occupied();
    let kinds = s.board.bishops ^ s.board.rooks ^ s.board.queens;
    let sliders = crate::position::checkers(s) & kinds;
    lemma_no_bits(t);
    let x = lemma_fold_or_some(sliders, crate::movegen::each_checker(king), 0, t);
    lemma_set_bits(crate::position::checkers(s), kinds, x);
    lemma_threat(s.board, k, by, first, x);
    lemma_piece_at(s.board, x);
    let role = s.board.role_at(x);
    crate::threats::lemma_xor_bits(s.board.bishops, s.board.rooks, x);
    crate::threats::lemma_xor_bits(s.board.bishops ^ s.board.rooks, s.board.queens, x);
    assert(has_bit(s.board.by_role(Role::Queen), x) <==> role == Some(Role::Queen));
    assert(has_bit(s.board.by_role(Role::Rook), x) <==> role == Some(Role::Rook));
    assert(has_bit(s.board.by_role(Role::Bishop), x) <==> role == Some(Role::Bishop));
    crate::threats::lemma_xor_bits(crate::attacks::ray_spec(x, k), bit(x), t);
    lemma_single(x, t);
    let along = (role == Some(Role::Rook) || role == Some(Role::Queen)) && has_bit(
        crate::attacks::rook_attacks_spec(k, first),
        x,
    );
    let w = lemma_line_some(along, k, first, x);
    assert forall|e: int| 0 <= e < 64 && has_bit(0, e) implies has_bit(first, e) by {
        lemma_no_bits(e);
    }
    lemma_slide_less(k, 0, first, w.delta, x);
    lemma_line_has(along, k, 0, w.delta, w.dr, w.df, x);
    crate::attack_laws::lemma_rook_deltas_both_ways();
    crate::attack_laws::lemma_bishop_deltas_both_ways();
    crate::attack_laws::lemma_sliding_back(k, 0, crate::line_laws::line_deltas(along), x);
    lemma_has_ray(along, x, k);
    assert(t != x);
    let v = lemma_on_the_line(along, k, x, t, first, w);
    LineCheck { checker: x, along, way: w, to: v }
}

/// A third square on the line through a square and a piece that is
/// reached from it lies in the direction of the piece or in the opposite
/// direction.
pub proof fn lemma_on_the_line(along: bool, k: int, x: int, t: int, occupied: u64, w: Way) -> (v:
    Way)
    requires
        0 <= k < 64,
        0 <= x < 64,
        0 <= t < 64,
        t != x,
        t != k,
        is_line(along, w.delta, w.dr, w.df),
        has_bit(slide(k, occupied, w.delta), x),
        has_bit(crate::attacks::ray_spec(x, k), t),
    ensures
        is_line(along, v.delta, v.dr, v.df),
        has_bit(slide(k, 0, v.delta), t),
        v.delta == w.delta || v.delta == -w.delta,
{
    let kind = crate::line_laws::lemma_ray(x, k, t);
    assert forall|e: int| 0 <= e < 64 && has_bit(0, e) implies has_bit(occupied, e) by {
        lemma_no_bits(e);
    }
    lemma_slide_less(k, 0, occupied, w.delta, x);
    lemma_line_has(along, k, 0, w.delta, w.dr, w.df, x);
    crate::attack_laws::lemma_rook_deltas_both_ways();
    crate::attack_laws::lemma_bishop_deltas_both_ways();
    crate::attack_laws::lemma_sliding_back(x, 0, crate::line_laws::line_deltas(kind), k);
    crate::line_laws::lemma_kinds_apart(k, x);
    crate::ray_laws::lemma_slide_toward(k, 0, w.delta, w.dr, w.df, x);
    crate::line_laws::lemma_same_line(along, k, x, t, w)
}

/// A step of the king along the line of a rook, bishop or queen that
/// gives check, toward the piece and short of it or away from it, leaves
/// the king on that line.
pub proof fn lemma_step_on_line(s: State, m: Move, king: Square, r: LineCheck)
    requires
        s.board.wf(),
        pseudo_legal(s, m),
        m is Normal,
        m.role_spec() == Role::King,
        at_most_one(kings_of(s.board, s.turn)),
        crate::position::king(s) == Some(king),
        0 <= r.checker < 64,
        r.checker != m.to_spec().idx(),
        is_line(r.along, r.way.delta, r.way.dr, r.way.df),
        has_bit(slide(king.idx(), s.board.occupied(), r.way.delta), r.checker),
        is_line(r.along, r.to.delta, r.to.dr, r.to.df),
        has_bit(slide(king.idx(), 0, r.to.delta), m.to_spec().idx()),
        r.to.delta == r.way.delta || r.to.delta == -r.way.delta,
    ensures
        has_bit(
            slide(m.to_spec().idx(), board_after(s.board, s.turn, m).occupied(), r.way.delta),
            r.checker,
        ),
{
    let k = king.idx();
    let t = m.to_spec().idx();
    let x = r.checker;
    let w = r.way;
    let v = r.to;
    let first = s.board.occupied();
    let then = board_after(s.board, s.turn, m).occupied();
    lemma_king_step_taken(s, m, king);
    crate::line_laws::lemma_king_step(k, t);
    crate::ray_laws::lemma_slide_toward(k, 0, v.delta, v.dr, v.df, t);
    assert(t == k + v.delta);
    lemma_slide_far(k, first, w.delta, x);
    if v.delta == w.delta {
        crate::attack_laws::lemma_slide_one(k, first, w.delta, x);
        assert forall|i: int|
            0 <= i < 64 && before(w.delta, i, x) && has_bit(slide(t, 0, w.delta), i) implies has_bit(
            first,
            i,
        ) == has_bit(then, i) by {
            lemma_slide_clear(t, first, w.delta, x, i);
            lemma_slide_far(t, 0, w.delta, i);
        }
        lemma_slide_upto(t, first, then, w.delta, x);
    } else {
        assert forall|i: int|
            0 <= i < 64 && before(w.delta, i, x) && has_bit(slide(k, 0, w.delta), i) implies has_bit(
            first,
            i,
        ) == has_bit(then, i) by {
            lemma_slide_clear(k, first, w.delta, x, i);
            lemma_slide_far(k, 0, w.delta, i);
        }
        lemma_slide_upto(k, first, then, w.delta, x);
        lemma_slide_far(k, 0, v.delta, t);
        crate::attack_laws::lemma_slide_back(k, 0, v.delta, t);
        crate::attack_laws::lemma_slide_one(t, 0, w.delta, k);
        crate::attack_laws::lemma_slide_one(t, then, w.delta, x);
    }
}

/// A step of the king that leaves it out of check goes off the lines of
/// the rooks, bishops and queens that gave check, or captures such a
/// piece.
pub proof fn lemma_step_off_the_lines(s: State, m: Move, king: Square)
    requires
        s.board.wf(),
        s.variant != crate::types::Variant::Atomic,
        s.variant != crate::types::Variant::Antichess,
        pseudo_legal(s, m),
        m is Normal,
        m.role_spec() == Role::King,
        at_most_one(kings_of(s.board, s.turn)),
        crate::position::king(s) == Some(king),
        king_safe(board_after(s.board, s.turn, m), s.turn),
    ensures
        !has_bit(
            crate::movegen::fold_or(
                crate::position::checkers(s) & (s.board.bishops ^ s.board.rooks ^ s.board.queens),
                crate::movegen::each_checker(king),
                0,
            ),
            m.to_spec().idx(),
        ),
{
    let t = m.to_spec().idx();
    let by = s.turn.other_spec();
    let after = board_after(s.board, s.turn, m);
    let then = after.occupied();
    let attacked = crate::movegen::fold_or(
        crate::position::checkers(s) & (s.board.bishops ^ s.board.rooks ^ s.board.queens),
        crate::movegen::each_checker(king),
        0,
    );
    lemma_king_step_taken(s, m, king);
    if has_bit(attacked, t) {
        let r = lemma_line_checker(s, king, t);
        lemma_step_on_line(s, m, king, r);
        crate::secure::lemma_mover(s, m);
        lemma_after_normal(s, m, r.checker);
        lemma_line_has(r.along, t, then, r.way.delta, r.way.dr, r.way.df, r.checker);
        assert(threat(after, t, by, then, r.checker));
        lemma_not_attacked(after, t, by, then, r.checker);
    }
}

/// The line through two squares on a line holds the first of them.
proof fn lemma_has_ray(along: bool, x: int, k: int)
    requires
        0 <= x < 64,
        0 <= k < 64,
        has_bit(line_attacks(along, x, 0), k),
    ensures
        has_bit(crate::attacks::ray_spec(x, k), x),
{
    let rook = !has_bit(crate::attacks::bishop_attacks_spec(x, 0), k);
    let both = line_attacks(rook, x, 0) & line_attacks(rook, k, 0);
    lemma_set_bits(both, bit(x), x);
    lemma_set_bits(both | bit(x), bit(k), x);
}

} // verus!
