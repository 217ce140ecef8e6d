//! The legal moves of standard chess, said without the way in which they
//! are found: the moves of the pieces that leave the king out of check,
//! and castling by its rules.

use vstd::prelude::*;
use crate::attacks::{between_spec, king_attacks_spec};
use crate::bitboard::{bit, drop_lsb, has_bit, lemma_lsb, lemma_no_bits, lsb};
use crate::candidate_laws::{
    is_pawn_move, lemma_concat_iff, lemma_non_king_iff, lemma_pawn_move_target,
    lemma_pawn_moves_iff, lemma_piece_moves_has, lemma_pin_iff, lemma_safe_king_iff, passes_pin,
};
use crate::exact_laws::{
    lemma_safe_passes, lemma_safe_step, lemma_single_checker, lemma_step_off_the_lines,
};
use crate::laws::{
    at_most_one, is_normal, is_piece_move, kings_of, lemma_piece_moves, lemma_single, pseudo_legal,
};
use crate::legality::{ep_fit, lemma_after_en_passant, lemma_standard_moves_safe};
use crate::line_laws::{lemma_line_has, lemma_line_some};
use crate::magic::lemma_set_bits;
use crate::movegen::{
    en_passant, en_passant_occupied, is_safe_spec, non_king, piece_moves, safe_king,
    slider_blockers,
};
use crate::position::{
    board_after, both_castlings, checkers, king, standard_moves, them, us, State,
};
use crate::ray_laws::lemma_slide_agree;
use crate::safety::king_safe;
use crate::secure::ready;
use crate::square::Square;
use crate::threats::{
    lemma_fold_or_some, lemma_not_attacked, lemma_piece_at, lemma_xor_bits, threat,
};
use crate::types::{Move, Piece, Role};

verus! {

/// A move of a pawn, knight, bishop, rook or queen to a square of one
/// target is among the moves to another target that holds the square.
pub proof fn lemma_non_king_target(s: State, first: u64, then: u64, m: Move)
    requires
        non_king(s.board, s.turn, first).contains(m),
        has_bit(then, m.to_spec().idx()),
    ensures
        non_king(s.board, s.turn, then).contains(m),
{
    let board = s.board;
    let turn = s.turn;
    lemma_non_king_iff(board, turn, first, m);
    lemma_non_king_iff(board, turn, then, m);
    lemma_pawn_moves_iff(board, turn, first, m);
    lemma_pawn_moves_iff(board, turn, then, m);
    if is_pawn_move(board, turn, first, m) {
        lemma_pawn_move_target(board, turn, first, then, m);
    }
    lemma_piece_target(board, Piece { color: turn, role: Role::Knight }, first, then, m);
    lemma_piece_target(board, Piece { color: turn, role: Role::Bishop }, first, then, m);
    lemma_piece_target(board, Piece { color: turn, role: Role::Rook }, first, then, m);
    lemma_piece_target(board, Piece { color: turn, role: Role::Queen }, first, then, m);
}

/// A move of a piece to a square of one target is among its moves to
/// another target that holds the square.
pub proof fn lemma_piece_target(
    board: crate::board::BoardView,
    piece: Piece,
    first: u64,
    then: u64,
    m: Move,
)
    requires
        has_bit(then, m.to_spec().idx()),
    ensures
        piece_moves(board, piece, first).contains(m) ==> piece_moves(board, piece, then).contains(
            m,
        ),
{
    if piece_moves(board, piece, first).contains(m) {
        lemma_piece_moves(board, piece, first);
        assert(is_piece_move(board, piece, then, m));
        lemma_piece_moves_has(board, piece, then, m);
    }
}

/// A capture en passant that leaves the king out of check passes the test
/// for the king, where the en passant square is one that a pawn has just
/// passed.
pub proof fn lemma_en_passant_passes(s: State, m: Move, king: Square)
    requires
        s.board.wf(),
        at_most_one(kings_of(s.board, s.turn)),
        ep_fit(s),
        pseudo_legal(s, m),
        m is EnPassant,
        crate::position::king(s) == Some(king),
        king_safe(board_after(s.board, s.turn, m), s.turn),
    ensures
        is_safe_spec(s.board, s.turn, king, m, slider_blockers(s.board, them(s), king)),
{
    broadcast use Square::lemma_idx_at;
    broadcast use Square::lemma_at_idx;

    let a = m.from_spec().unwrap().idx();
    let b = m.to_spec().idx();
    let v = 8 * (a / 8) + b % 8;
    let k = king.idx();
    let by = s.turn.other_spec();
    let first = s.board.occupied();
    let after = board_after(s.board, s.turn, m);
    let then = after.occupied();
    crate::laws::lemma_king_of(s.board, s.turn);
    crate::secure::lemma_victim(s, m);
    lemma_piece_at(s.board, a);
    lemma_piece_at(s.board, b);
    lemma_piece_at(s.board, v);
    lemma_piece_at(s.board, k);
    lemma_set_bits(s.board.by_color(s.turn), s.board.by_role(Role::King), k);
    // The king stays where it is.
    assert forall|e: int| 0 <= e < 64 implies ((after.color_at(e) == Some(s.turn) && after.role_at(
        e,
    ) == Some(Role::King)) <==> (s.board.color_at(e) == Some(s.turn) && #[trigger] s.board.role_at(
        e,
    ) == Some(Role::King))) by {
        lemma_after_en_passant(s, m, e);
    }
    lemma_after_en_passant(s, m, k);
    crate::secure::lemma_kings_same(s.board, after, s.turn);
    let taken = en_passant_occupied(s.board, m.from_spec().unwrap(), m.to_spec());
    assert forall|i: int| 0 <= i < 64 implies has_bit(then, i) == has_bit(taken, i) by {
        lemma_after_en_passant(s, m, i);
        lemma_piece_at(after, i);
        lemma_piece_at(s.board, i);
        lemma_xor_bits(first, bit(a), i);
        lemma_xor_bits(first ^ bit(a), bit(v), i);
        lemma_set_bits((first ^ bit(a)) ^ bit(v), bit(b), i);
        lemma_single(a, i);
        lemma_single(v, i);
        lemma_single(b, i);
    }
    let rooks = crate::attacks::rook_attacks_spec(k, taken) & s.board.by_color(by) & (s.board.rooks
        | s.board.queens);
    let bishops = crate::attacks::bishop_attacks_spec(k, taken) & s.board.by_color(by) & (
    s.board.bishops | s.board.queens);
    if rooks != 0 || bishops != 0 {
        let along = rooks != 0;
        let set = if along {
            rooks
        } else {
            bishops
        };
        lemma_lsb(set);
        let x = lsb(set);
        let line = crate::line_laws::line_attacks(along, k, taken);
        let roles = if along {
            s.board.rooks | s.board.queens
        } else {
            s.board.bishops | s.board.queens
        };
        lemma_set_bits(line & s.board.by_color(by), roles, x);
        lemma_set_bits(line, s.board.by_color(by), x);
        lemma_set_bits(s.board.rooks, s.board.queens, x);
        lemma_set_bits(s.board.bishops, s.board.queens, x);
        lemma_piece_at(s.board, x);
        let role = s.board.role_at(x);
        assert(has_bit(s.board.by_role(Role::Queen), x) <==> role == Some(Role::Queen));
        assert(has_bit(s.board.by_role(Role::Rook), x) <==> role == Some(Role::Rook));
        assert(has_bit(s.board.by_role(Role::Bishop), x) <==> role == Some(Role::Bishop));
        assert(has_bit(s.board.by_color(by), x) <==> s.board.color_at(x) == Some(by));
        let w = lemma_line_some(along, k, taken, x);
        lemma_slide_agree(k, taken, then, w.delta);
        lemma_line_has(along, k, then, w.delta, w.dr, w.df, x);
        lemma_after_en_passant(s, m, x);
        assert(threat(after, k, by, then, x));
        lemma_not_attacked(after, k, by, then, x);
    }
}

/// No square between the king and another square is the square of the
/// king, so the king is none of the pieces that stand alone between it
/// and a rook, bishop or queen.
pub proof fn lemma_king_no_blocker(s: State, king: Square)
    requires
        0 <= king.idx() < 64,
    ensures
        !has_bit(slider_blockers(s.board, them(s), king), king.idx()),
{
    broadcast use Square::lemma_idx_at;

    let k = king.idx();
    let f = crate::movegen::each_sniper(s.board, king);
    let set = crate::movegen::snipers(s.board, king) & them(s);
    if has_bit(slider_blockers(s.board, them(s), king), k) {
        lemma_no_bits(k);
        let x = lemma_fold_or_some(set, f, 0, k);
        lemma_set_bits(between_spec(k, x), s.board.occupied(), k);
        let r = crate::line_laws::lemma_between(k, x, k);
        crate::ray_laws::lemma_slide_far(k, 0, r.1.delta, k);
    }
}

/// True if the move is one that the pieces can make, whatever becomes of
/// the king: a move of a pawn, knight, bishop, rook or queen as the piece
/// goes, a step of the king, a capture en passant on the en passant
/// square, or, without check, castling by its rules. A drop is none.
pub open spec fn candidate(s: State, m: Move) -> bool {
    match m {
        Move::Normal { role, to, .. } => if role == Role::King {
            king(s) matches Some(k) && is_normal(s.board, Role::King, k, m) && has_bit(
                king_attacks_spec(k.idx()),
                to.idx(),
            ) && !has_bit(us(s), to.idx())
        } else {
            non_king(s.board, s.turn, !us(s)).contains(m)
        },
        Move::EnPassant { .. } => en_passant(s.board, s.turn, s.ep_square).contains(m),
        Move::Castle { .. } => checkers(s) == 0 && both_castlings(s).contains(m),
        Move::Put { .. } => false,
    }
}

/// The moves among which the legal moves are picked by the test for the
/// king.
pub open spec fn others(s: State) -> Seq<Move> {
    if checkers(s) == 0 {
        non_king(s.board, s.turn, !us(s)) + crate::position::safe_king_moves(s, !us(s))
            + both_castlings(s)
    } else {
        crate::position::evasion_moves(s)
    }
}

/// A move that the rules of standard chess allow is one that the pieces
/// can make.
pub proof fn lemma_allowed_is_candidate(s: State, m: Move)
    requires
        crate::laws::well_formed(s),
        standard_moves(s).contains(m),
    ensures
        candidate(s, m),
{
    broadcast use Square::lemma_idx_at;

    let ep = en_passant(s.board, s.turn, s.ep_square);
    let free = !us(s);
    crate::laws::lemma_apart(us(s), 0, 0);
    lemma_pin_iff(s, ep + others(s), ep.len() > 0, m);
    lemma_concat_iff(ep, others(s), m);
    crate::laws::lemma_en_passant(s.board, s.turn, s.ep_square);
    crate::laws::lemma_king_of(s.board, s.turn);
    let b = m.to_spec().idx();
    if !ep.contains(m) {
        if checkers(s) == 0 {
            let a = non_king(s.board, s.turn, free);
            let g = crate::position::safe_king_moves(s, free);
            let c = both_castlings(s);
            lemma_concat_iff(a + g, c, m);
            lemma_concat_iff(a, g, m);
            crate::laws::lemma_both_castlings(s);
            crate::laws::lemma_non_king(s, free);
            crate::laws::lemma_safe_king_moves(s, free);
            if g.contains(m) {
                let k = king(s).unwrap();
                lemma_safe_king_iff(s.board, s.turn, k, free, m);
                lemma_set_bits(us(s), 0, b);
            }
        } else {
            let k = king(s).unwrap();
            let all = checkers(s);
            let kinds = s.board.bishops ^ s.board.rooks ^ s.board.queens;
            let attacked = crate::movegen::fold_or(
                all & kinds,
                crate::movegen::each_checker(k),
                0,
            );
            let checker = Square::at(lsb(all));
            let target = free & !attacked;
            let g = safe_king(s.board, s.turn, k, target);
            let squares = (between_spec(k.idx(), checker.idx()) | bit(checker.idx())) & free;
            let a = if all != 0 && drop_lsb(all) == 0 {
                non_king(s.board, s.turn, squares)
            } else {
                Seq::<Move>::empty()
            };
            assert(others(s) == g + a);
            lemma_concat_iff(g, a, m);
            if g.contains(m) {
                lemma_safe_king_iff(s.board, s.turn, k, target, m);
                lemma_set_bits(free, !attacked, b);
                lemma_set_bits(us(s), 0, b);
            } else {
                crate::laws::lemma_apart(
                    us(s),
                    0,
                    between_spec(k.idx(), checker.idx()) | bit(checker.idx()),
                );
                crate::laws::lemma_non_king(s, squares);
                lemma_set_bits(
                    between_spec(k.idx(), checker.idx()) | bit(checker.idx()),
                    free,
                    b,
                );
                lemma_non_king_target(s, squares, free, m);
            }
        }
    }
}

/// A move that the pieces can make and that leaves the king out of check
/// is one that the rules of standard chess allow.
pub proof fn lemma_candidate_is_allowed(s: State, m: Move)
    requires
        ready(s),
        candidate(s, m),
        king_safe(board_after(s.board, s.turn, m), s.turn),
    ensures
        standard_moves(s).contains(m),
{
    broadcast use Square::lemma_idx_at;

    let ep = en_passant(s.board, s.turn, s.ep_square);
    let free = !us(s);
    crate::laws::lemma_apart(us(s), 0, 0);
    lemma_pin_iff(s, ep + others(s), ep.len() > 0, m);
    lemma_concat_iff(ep, others(s), m);
    crate::laws::lemma_en_passant(s.board, s.turn, s.ep_square);
    crate::laws::lemma_king_of(s.board, s.turn);
    let b = m.to_spec().idx();
    match m {
        Move::Normal { role, from, .. } => {
            if role == Role::King {
                lemma_king_allowed(s, m);
            } else {
                lemma_piece_allowed(s, m);
            }
        },
        Move::EnPassant { .. } => {
            match king(s) {
                Some(k) => {
                    lemma_en_passant_passes(s, m, k);
                },
                None => {},
            }
        },
        Move::Castle { .. } => {
            let a = non_king(s.board, s.turn, free);
            let g = crate::position::safe_king_moves(s, free);
            let c = both_castlings(s);
            lemma_concat_iff(a + g, c, m);
        },
        Move::Put { .. } => {},
    }
}

/// A move of a pawn, knight, bishop, rook or queen that leaves the king out
/// of check is among the moves that the test for the king leaves.
pub proof fn lemma_piece_allowed(s: State, m: Move)
    requires
        ready(s),
        m is Normal,
        m.role_spec() != Role::King,
        non_king(s.board, s.turn, !us(s)).contains(m),
        king_safe(board_after(s.board, s.turn, m), s.turn),
    ensures
        others(s).contains(m),
        passes_pin(s, en_passant(s.board, s.turn, s.ep_square).len() > 0, m),
{
    broadcast use Square::lemma_idx_at;

    let free = !us(s);
    let b = m.to_spec().idx();
    crate::laws::lemma_apart(us(s), 0, 0);
    crate::laws::lemma_non_king(s, free);
    crate::laws::lemma_king_of(s.board, s.turn);
    match king(s) {
        None => {
            let a = non_king(s.board, s.turn, free);
            let g = crate::position::safe_king_moves(s, free);
            let c = both_castlings(s);
            lemma_concat_iff(a + g, c, m);
            lemma_concat_iff(a, g, m);
        },
        Some(k) => {
            lemma_safe_passes(s, m, k);
            if checkers(s) == 0 {
                let a = non_king(s.board, s.turn, free);
                let g = crate::position::safe_king_moves(s, free);
                let c = both_castlings(s);
                lemma_concat_iff(a + g, c, m);
                lemma_concat_iff(a, g, m);
            } else {
                lemma_single_checker(s, m, k);
                let all = checkers(s);
                lemma_lsb(all);
                let kinds = s.board.bishops ^ s.board.rooks ^ s.board.queens;
                let attacked = crate::movegen::fold_or(
                    all & kinds,
                    crate::movegen::each_checker(k),
                    0,
                );
                let checker = Square::at(lsb(all));
                let g = safe_king(s.board, s.turn, k, free & !attacked);
                let squares = (between_spec(k.idx(), checker.idx()) | bit(checker.idx())) & free;
                let a = non_king(s.board, s.turn, squares);
                assert(others(s) == g + a);
                lemma_set_bits(
                    between_spec(k.idx(), checker.idx()) | bit(checker.idx()),
                    free,
                    b,
                );
                lemma_non_king_target(s, free, squares, m);
                lemma_concat_iff(g, a, m);
            }
        },
    }
}

/// A step of the king that leaves it out of check is among the moves
/// that the test for the king leaves.
pub proof fn lemma_king_allowed(s: State, m: Move)
    requires
        ready(s),
        m is Normal,
        m.role_spec() == Role::King,
        candidate(s, m),
        king_safe(board_after(s.board, s.turn, m), s.turn),
    ensures
        others(s).contains(m),
        passes_pin(s, en_passant(s.board, s.turn, s.ep_square).len() > 0, m),
{
    broadcast use Square::lemma_idx_at;

    let free = !us(s);
    let b = m.to_spec().idx();
    let k = king(s).unwrap();
    crate::laws::lemma_apart(us(s), 0, 0);
    crate::laws::lemma_king_of(s.board, s.turn);
    lemma_set_bits(us(s), 0, b);
    assert(pseudo_legal(s, m));
    lemma_safe_step(s, m, k);
    lemma_king_no_blocker(s, k);
    if checkers(s) == 0 {
        let a = non_king(s.board, s.turn, free);
        let g = crate::position::safe_king_moves(s, free);
        let c = both_castlings(s);
        lemma_safe_king_iff(s.board, s.turn, k, free, m);
        lemma_concat_iff(a + g, c, m);
        lemma_concat_iff(a, g, m);
    } else {
        lemma_step_off_the_lines(s, m, k);
        let all = checkers(s);
        let kinds = s.board.bishops ^ s.board.rooks ^ s.board.queens;
        let attacked = crate::movegen::fold_or(all & kinds, crate::movegen::each_checker(k), 0);
        let checker = Square::at(lsb(all));
        let target = free & !attacked;
        let g = safe_king(s.board, s.turn, k, target);
        let squares = (between_spec(k.idx(), checker.idx()) | bit(checker.idx())) & free;
        let a = if all != 0 && drop_lsb(all) == 0 {
            non_king(s.board, s.turn, squares)
        } else {
            Seq::<Move>::empty()
        };
        assert(others(s) == g + a);
        lemma_set_bits(free, !attacked, b);
        lemma_set_bits(attacked, 0, b);
        lemma_safe_king_iff(s.board, s.turn, k, target, m);
        lemma_concat_iff(g, a, m);
    }
}

/// The moves that the rules of standard chess allow are exactly the moves
/// that the pieces can make and that leave the king of the side that
/// moves out of check. This holds where each side has one king at most,
/// the castling rights go with kings and rooks on their squares, and the
/// en passant square is one that a pawn has just passed.
pub proof fn lemma_exact(s: State, m: Move)
    requires
        ready(s),
    ensures
        standard_moves(s).contains(m) <==> candidate(s, m) && king_safe(
            board_after(s.board, s.turn, m),
            s.turn,
        ),
{
    if standard_moves(s).contains(m) {
        lemma_allowed_is_candidate(s, m);
        lemma_standard_moves_safe(s, m);
    }
    if candidate(s, m) && king_safe(board_after(s.board, s.turn, m), s.turn) {
        lemma_candidate_is_allowed(s, m);
    }
}

/// A square between two squares is between them the other way round.
pub proof fn lemma_between_back(a: int, b: int, i: int)
    requires
        0 <= a < 64,
        0 <= b < 64,
        0 <= i < 64,
        has_bit(between_spec(a, b), i),
    ensures
        has_bit(between_spec(b, a), i),
{
    let r = crate::line_laws::lemma_between(a, b, i);
    let w = r.1;
    crate::attack_laws::lemma_slide_back(a, 0, w.delta, i);
    crate::attack_laws::lemma_slide_back(i, 0, w.delta, b);
    crate::line_laws::lemma_between_has(r.0, b, a, i, -w.delta, -w.dr, -w.df);
}

/// A piece that threatens the king threatens it after a drop on a square
/// that is not between it and the king.
pub proof fn lemma_drop_threat_stays(s: State, m: Move, k: int, x: int)
    requires
        s.board.wf(),
        pseudo_legal(s, m),
        m is Put,
        0 <= k < 64,
        0 <= x < 64,
        threat(s.board, k, s.turn.other_spec(), s.board.occupied(), x),
        !has_bit(between_spec(k, x), m.to_spec().idx()),
    ensures
        threat(
            board_after(s.board, s.turn, m),
            k,
            s.turn.other_spec(),
            board_after(s.board, s.turn, m).occupied(),
            x,
        ),
{
    let b = m.to_spec().idx();
    let after = board_after(s.board, s.turn, m);
    let first = s.board.occupied();
    let then = after.occupied();
    crate::secure::lemma_after_drop(s, m, x);
    let role = s.board.role_at(x);
    if !crate::legality::is_stepper(role) {
        let along = (role == Some(Role::Rook) || role == Some(Role::Queen)) && has_bit(
            crate::attacks::rook_attacks_spec(k, first),
            x,
        );
        let w = lemma_line_some(along, k, first, x);
        assert forall|e: int| 0 <= e < 64 && has_bit(0, e) implies has_bit(first, e) by {
            lemma_no_bits(e);
        }
        crate::ray_laws::lemma_slide_less(k, 0, first, w.delta, x);
        assert forall|i: int|
            0 <= i < 64 && crate::ray_laws::before(w.delta, i, x) && has_bit(
                crate::attacks::slide(k, 0, w.delta),
                i,
            ) implies has_bit(first, i) == has_bit(then, i) by {
            crate::secure::lemma_after_drop(s, m, i);
            if i == b {
                crate::ray_laws::lemma_slide_part(k, 0, w.delta, b, x);
                crate::line_laws::lemma_between_has(along, k, x, b, w.delta, w.dr, w.df);
            }
        }
        crate::ray_laws::lemma_slide_upto(k, first, then, w.delta, x);
        lemma_line_has(along, k, then, w.delta, w.dr, w.df, x);
    }
}

/// A drop that leaves the king out of check goes to one of the squares
/// for drops: any empty square without check, and a square between the
/// king and the piece that gives check.
pub proof fn lemma_safe_drop_square(s: State, m: Move)
    requires
        s.board.wf(),
        s.variant == crate::types::Variant::Crazyhouse,
        at_most_one(kings_of(s.board, s.turn)),
        pseudo_legal(s, m),
        m is Put,
        king_safe(board_after(s.board, s.turn, m), s.turn),
    ensures
        has_bit(crate::rules::put_squares(s), m.to_spec().idx()),
{
    broadcast use Square::lemma_idx_at;

    let b = m.to_spec().idx();
    let by = s.turn.other_spec();
    let first = s.board.occupied();
    let after = board_after(s.board, s.turn, m);
    let c = checkers(crate::position::chess_part(s));
    crate::laws::lemma_king_of(s.board, s.turn);
    crate::secure::lemma_drop_keeps_kings(s, m, s.turn);
    lemma_set_bits(first, 0, b);
    match king(s) {
        None => {},
        Some(king) => {
            let k = king.idx();
            if c != 0 {
                lemma_lsb(c);
                let x = lsb(c);
                crate::threats::lemma_threat(s.board, k, by, first, x);
                lemma_piece_at(s.board, x);
                if !has_bit(between_spec(k, x), b) {
                    lemma_drop_threat_stays(s, m, k, x);
                    lemma_not_attacked(after, k, by, after.occupied(), x);
                }
                let rest = drop_lsb(c);
                if rest != 0 {
                    lemma_lsb(rest);
                    let y = lsb(rest);
                    crate::bitboard::lemma_drop_lsb_bits(c, y);
                    crate::threats::lemma_threat(s.board, k, by, first, y);
                    lemma_piece_at(s.board, y);
                    if !has_bit(between_spec(k, y), b) {
                        lemma_drop_threat_stays(s, m, k, y);
                        lemma_not_attacked(after, k, by, after.occupied(), y);
                    }
                    let p = crate::line_laws::lemma_between(k, x, b);
                    let q = crate::line_laws::lemma_between(k, y, b);
                    crate::ray_laws::lemma_slide_toward(k, 0, p.1.delta, p.1.dr, p.1.df, b);
                    crate::ray_laws::lemma_slide_toward(k, 0, q.1.delta, q.1.dr, q.1.df, b);
                    crate::ray_laws::lemma_one_direction(k, b, p.1.dr, p.1.df, q.1.dr, q.1.df);
                    crate::exact_laws::lemma_one_in_line(s.board, k, by, x, y, p.1);
                }
                lemma_between_back(k, x, b);
                lemma_set_bits(between_spec(x, k), !first, b);
            }
        },
    }
}

/// The drops of Crazyhouse are exactly the drops of a piece from the
/// pocket on an empty square, no pawn on the first or last rank, that
/// leave the king out of check.
pub proof fn lemma_drops_exact(s: State, m: Move)
    requires
        s.board.wf(),
        s.variant == crate::types::Variant::Crazyhouse,
        at_most_one(kings_of(s.board, s.turn)),
    ensures
        crate::rules::drops(s).contains(m) <==> m is Put && pseudo_legal(s, m) && king_safe(
            board_after(s.board, s.turn, m),
            s.turn,
        ),
{
    if crate::rules::drops(s).contains(m) {
        crate::laws::lemma_drops(s);
        crate::secure::lemma_drop_safe(s, m);
    }
    if m is Put && pseudo_legal(s, m) && king_safe(board_after(s.board, s.turn, m), s.turn) {
        lemma_safe_drop_square(s, m);
        crate::laws::lemma_single(m.to_spec().idx(), m.to_spec().idx());
        crate::san_laws::lemma_drop_candidate(s, m.role_spec(), m.to_spec(), m);
        assert(crate::rules::drop_candidate(s, m.role_spec(), m.to_spec())[0] == m);
    }
}

/// True if the move is one that the pieces of a variant that moves by the
/// rules of standard chess can make, whatever becomes of the king: a
/// move of a piece as it goes, castling by its rules, or in Crazyhouse
/// the drop of a piece from the pocket.
pub open spec fn playable(s: State, m: Move) -> bool {
    if m is Put {
        pseudo_legal(s, m)
    } else {
        candidate(crate::secure::ruled(s), m)
    }
}

/// True if the game is over by the rule of King of the Hill, of
/// Three-Check or of Racing Kings, after which these variants have no
/// legal moves.
pub open spec fn is_over(s: State) -> bool {
    (s.variant == crate::types::Variant::KingOfTheHill && crate::rules::hill_end(s)) || (s.variant
        == crate::types::Variant::ThreeCheck && crate::rules::checks_end(s)) || (s.variant
        == crate::types::Variant::RacingKings && crate::rules::racing_end(s))
}

/// The legal moves of a secure position are exactly the moves that the
/// pieces can make and that leave the king of the side that moves out of
/// check: no piece of the other side attacks it in the position that the
/// move gives. In Racing Kings they must not give check either. King of
/// the Hill, Three-Check and Racing Kings have no legal moves once the
/// game is over.
pub proof fn lemma_legal_exact(s: State, m: Move)
    requires
        crate::secure::secure(s),
    ensures
        crate::rules::legal_moves_spec(s).contains(m) <==> !is_over(s) && playable(s, m)
            && king_safe(board_after(s.board, s.turn, m), s.turn) && (s.variant
            == crate::types::Variant::RacingKings ==> king_safe(
            board_after(s.board, s.turn, m),
            s.turn.other_spec(),
        )),
{
    let t = crate::secure::ruled(s);
    crate::secure::lemma_secure_ready(s);
    lemma_exact(t, m);
    crate::laws::lemma_standard_moves(t);
    if s.variant == crate::types::Variant::Crazyhouse {
        lemma_drops_exact(s, m);
        lemma_concat_iff(standard_moves(t), crate::rules::drops(s), m);
    }
    if s.variant == crate::types::Variant::RacingKings {
        crate::secure::lemma_racing_moves(s, m);
        let after = crate::rules::racing_play(s, m);
        assert(king(after) == after.board.king_of(after.turn));
    }
    if m is Put && s.variant != crate::types::Variant::Crazyhouse {
        assert(!pseudo_legal(s, m));
    }
}

} // verus!
