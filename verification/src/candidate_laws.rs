//! The moves of a piece to a square, found directly, are the legal moves
//! of that piece to that square.

use vstd::prelude::*;
use crate::attack_laws::lemma_attacks_back;
use crate::attacks::{attacks_spec, king_attacks_spec, pawn_attacks_spec};
use crate::bitboard::{
    bit, drop_lsb, has_bit, lemma_drop_lsb_bits, lemma_lsb, lemma_no_bits, lsb, BACKRANKS,
};
use crate::board::BoardView;
use crate::color::Color;
use crate::laws::{
    is_normal, is_pawn_capture, is_pawn_push, is_piece_move, lemma_concat_member, lemma_en_passant,
    lemma_filter_no_dup, lemma_for_each_member, lemma_for_each_no_dup, lemma_member_concat,
    lemma_pawn_captures, lemma_pawn_moves, lemma_pawn_pushes, lemma_piece_moves, lemma_single,
    origin_key,
};
use crate::magic::lemma_set_bits;
use crate::movegen::{
    back, double_moves, each_capturing_pawn, each_origin, each_piece, each_promotion_target,
    each_push_target, each_safe_king_target, each_target, en_passant, for_each, moves_from,
    moves_to, our_pawns, pawn_capture_targets, pawn_captures, pawn_moves, pawn_pushes, piece_moves,
    promotions, safe_king, seventh, single_moves,
};
use crate::laws::{
    lemma_apart, lemma_both_castlings, lemma_castling, lemma_evasion_moves, lemma_non_king,
    lemma_safe_king_moves, well_formed,
};
use crate::movegen::{is_safe_spec, non_king, safe_fn, slider_blockers};
use crate::position::{
    both_castlings, checkers, evasion_moves, is_san_candidate, king, pin_filtered,
    reverse_attacks, safe_king_moves, san_candidate_fn, standard_moves,
    standard_san_candidates, them, us, State,
};
use crate::square::Square;
use crate::types::{Move, Piece, Role};

verus! {

/// A move that is made for a square of a set is among the moves made for
/// the set.
pub proof fn lemma_for_each_has(set: u64, f: spec_fn(Square) -> Seq<Move>, i: int, m: Move)
    requires
        has_bit(set, i),
        f(Square::at(i)).contains(m),
    ensures
        for_each(set, f).contains(m),
    decreases set,
{
    crate::bitboard::lemma_has_bit_nonzero(set, i);
    lemma_lsb(set);
    let head = f(Square::at(lsb(set)));
    let tail = for_each(drop_lsb(set), f);
    if i != lsb(set) {
        lemma_drop_lsb_bits(set, i);
        lemma_for_each_has(drop_lsb(set), f, i, m);
    }
    lemma_member_concat(head, tail, m);
}

/// Every move of a piece from a square to one of the targets is among the
/// moves to the targets.
pub proof fn lemma_moves_to_has(board: BoardView, role: Role, from: Square, targets: u64, x: Move)
    requires
        is_normal(board, role, from, x),
        has_bit(targets, x.to_spec().idx()),
    ensures
        moves_to(board, role, from, targets).contains(x),
{
    broadcast use Square::lemma_at_idx;

    let to = x.to_spec();
    let f = each_target(board, role, from);
    assert(f(Square::at(to.idx()))[0] == x);
    lemma_for_each_has(targets, f, to.idx(), x);
}

/// Every move of a piece like `piece` to a square of the target that it
/// attacks is among the moves of such pieces.
pub proof fn lemma_piece_moves_has(board: BoardView, piece: Piece, target: u64, x: Move)
    requires
        is_piece_move(board, piece, target, x),
    ensures
        piece_moves(board, piece, target).contains(x),
{
    broadcast use Square::lemma_at_idx;

    let from = x.from_spec().unwrap();
    let to = x.to_spec();
    let reach = attacks_spec(from.idx(), piece, board.occupied());
    lemma_set_bits(reach, target, to.idx());
    lemma_moves_to_has(board, piece.role, from, reach & target, x);
    lemma_for_each_has(
        board.by_piece(piece),
        each_piece(board, piece, target),
        from.idx(),
        x,
    );
}

/// The moves of a piece to a square from some origins are the moves from
/// each of these origins, once.
pub proof fn lemma_moves_from(board: BoardView, role: Role, origins: u64, to: Square)
    requires
        0 <= to.idx() < 64,
    ensures
        moves_from(board, role, origins, to).no_duplicates(),
        forall|x: Move| #[trigger]
            moves_from(board, role, origins, to).contains(x) <==> (x matches Move::Normal {
                from,
                ..
            } && is_normal(board, role, from, x) && x.to_spec() == to && has_bit(
                origins,
                from.idx(),
            )),
{
    broadcast use Square::lemma_at_idx;
    broadcast use Square::lemma_idx_at;

    let f = each_origin(board, role, to);
    assert forall|i: int, m: Move|
        has_bit(origins, i) && (#[trigger] f(Square::at(i)).contains(m)) implies origin_key()(m)
        == Square::at(i) by {
        assert(f(Square::at(i))[0] == m);
    }
    lemma_for_each_no_dup(origins, f, origin_key());
    assert forall|x: Move| #[trigger]
        moves_from(board, role, origins, to).contains(x) <==> (x matches Move::Normal {
            from,
            ..
        } && is_normal(board, role, from, x) && x.to_spec() == to && has_bit(
            origins,
            from.idx(),
        )) by {
        if moves_from(board, role, origins, to).contains(x) {
            let i = lemma_for_each_member(origins, f, x);
            assert(f(Square::at(i))[0] == x);
        }
        if x matches Move::Normal { from, .. } && is_normal(board, role, from, x) && x.to_spec()
            == to && has_bit(origins, from.idx()) {
            let from = x.from_spec().unwrap();
            assert(f(Square::at(from.idx()))[0] == x);
            lemma_for_each_has(origins, f, from.idx(), x);
        }
    }
}

/// Every capture by a pawn of `pawns` is among the captures of these pawns.
pub proof fn lemma_pawn_captures_has(
    board: BoardView,
    turn: Color,
    pawns: u64,
    target: u64,
    promote: bool,
    x: Move,
)
    requires
        is_pawn_capture(board, turn, target, promote, x),
        has_bit(pawns, x.from_spec().unwrap().idx()),
    ensures
        pawn_captures(board, turn, pawns, target, promote).contains(x),
{
    broadcast use Square::lemma_at_idx;

    let from = x.from_spec().unwrap();
    let to = x.to_spec();
    let targets = pawn_capture_targets(board, turn, from, target);
    let f = each_capturing_pawn(board, turn, target, promote);
    if promote {
        let g = each_promotion_target(board, from);
        let four = promotions(from, to, board.role_at(to.idx()));
        let p = x.promotion_spec().unwrap();
        if p == Role::Queen {
            assert(four[0] == x);
        } else if p == Role::Rook {
            assert(four[1] == x);
        } else if p == Role::Bishop {
            assert(four[2] == x);
        } else {
            assert(four[3] == x);
        }
        assert(g(Square::at(to.idx())).contains(x));
        lemma_for_each_has(targets, g, to.idx(), x);
    } else {
        lemma_moves_to_has(board, Role::Pawn, from, targets, x);
    }
    assert(f(Square::at(from.idx())).contains(x));
    lemma_for_each_has(pawns, f, from.idx(), x);
}

/// Every advance of a pawn to one of the targets is among the advances.
pub proof fn lemma_pawn_pushes_has(turn: Color, targets: u64, steps: int, promote: bool, x: Move)
    requires
        is_pawn_push(turn, targets, steps, promote, x),
    ensures
        pawn_pushes(turn, targets, steps, promote).contains(x),
{
    broadcast use Square::lemma_at_idx;

    let from = x.from_spec().unwrap();
    let to = x.to_spec();
    let f = each_push_target(turn, steps, promote);
    assert(to.offset_spec(back(turn, steps)) == Some(from));
    if promote {
        let four = promotions(from, to, None);
        let p = x.promotion_spec().unwrap();
        if p == Role::Queen {
            assert(four[0] == x);
        } else if p == Role::Rook {
            assert(four[1] == x);
        } else if p == Role::Bishop {
            assert(four[2] == x);
        } else {
            assert(four[3] == x);
        }
    } else {
        assert(f(Square::at(to.idx()))[0] == x);
    }
    assert(f(Square::at(to.idx())).contains(x));
    lemma_for_each_has(targets, f, to.idx(), x);
}

/// True for a pawn move of `turn` to a square of `target`, en passant
/// excepted.
pub open spec fn is_pawn_move(board: BoardView, turn: Color, target: u64, x: Move) -> bool {
    let pawns = our_pawns(board, turn);
    let on_seventh = seventh(board, turn);
    let single = single_moves(board, turn);
    let double = double_moves(board, turn);
    ||| (is_pawn_capture(board, turn, target, false, x) && has_bit(
        pawns & !on_seventh,
        x.from_spec().unwrap().idx(),
    ))
    ||| (is_pawn_capture(board, turn, target, true, x) && has_bit(
        on_seventh,
        x.from_spec().unwrap().idx(),
    ))
    ||| is_pawn_push(turn, single & target & !BACKRANKS, 8, false, x)
    ||| is_pawn_push(turn, single & target & BACKRANKS, 8, true, x)
    ||| is_pawn_push(turn, double & target, 16, false, x)
}

/// The pawn moves to a target are exactly the moves that are pawn moves to
/// that target.
pub proof fn lemma_pawn_moves_iff(board: BoardView, turn: Color, target: u64, x: Move)
    ensures
        pawn_moves(board, turn, target).contains(x) <==> is_pawn_move(board, turn, target, x),
{
    let pawns = our_pawns(board, turn);
    let on_seventh = seventh(board, turn);
    let single = single_moves(board, turn);
    let double = double_moves(board, turn);
    let a = pawn_captures(board, turn, pawns & !on_seventh, target, false);
    let b = pawn_captures(board, turn, on_seventh, target, true);
    let c = pawn_pushes(turn, single & target & !BACKRANKS, 8, false);
    let d = pawn_pushes(turn, single & target & BACKRANKS, 8, true);
    let e = pawn_pushes(turn, double & target, 16, false);
    lemma_pawn_captures(board, turn, pawns & !on_seventh, target, false);
    lemma_pawn_captures(board, turn, on_seventh, target, true);
    lemma_pawn_pushes(turn, single & target & !BACKRANKS, 8, false);
    lemma_pawn_pushes(turn, single & target & BACKRANKS, 8, true);
    lemma_pawn_pushes(turn, double & target, 16, false);
    if pawn_moves(board, turn, target).contains(x) {
        lemma_concat_member(a + b + c + d, e, x);
        if !e.contains(x) {
            lemma_concat_member(a + b + c, d, x);
            if !d.contains(x) {
                lemma_concat_member(a + b, c, x);
                if !c.contains(x) {
                    lemma_concat_member(a, b, x);
                }
            }
        }
    }
    if is_pawn_move(board, turn, target, x) {
        if is_pawn_capture(board, turn, target, false, x) && has_bit(
            pawns & !on_seventh,
            x.from_spec().unwrap().idx(),
        ) {
            lemma_pawn_captures_has(board, turn, pawns & !on_seventh, target, false, x);
        } else if is_pawn_capture(board, turn, target, true, x) && has_bit(
            on_seventh,
            x.from_spec().unwrap().idx(),
        ) {
            lemma_pawn_captures_has(board, turn, on_seventh, target, true, x);
        } else if is_pawn_push(turn, single & target & !BACKRANKS, 8, false, x) {
            lemma_pawn_pushes_has(turn, single & target & !BACKRANKS, 8, false, x);
        } else if is_pawn_push(turn, single & target & BACKRANKS, 8, true, x) {
            lemma_pawn_pushes_has(turn, single & target & BACKRANKS, 8, true, x);
        } else {
            lemma_pawn_pushes_has(turn, double & target, 16, false, x);
        }
        if a.contains(x) || b.contains(x) {
            lemma_member_concat(a, b, x);
        }
        if (a + b).contains(x) || c.contains(x) {
            lemma_member_concat(a + b, c, x);
        }
        if (a + b + c).contains(x) || d.contains(x) {
            lemma_member_concat(a + b + c, d, x);
        }
        lemma_member_concat(a + b + c + d, e, x);
    }
}

/// A pawn move to a square is a pawn move to every target that holds the
/// square.
pub proof fn lemma_pawn_move_target(board: BoardView, turn: Color, t1: u64, t2: u64, x: Move)
    requires
        is_pawn_move(board, turn, t1, x),
        has_bit(t2, x.to_spec().idx()),
    ensures
        is_pawn_move(board, turn, t2, x),
        has_bit(t1, x.to_spec().idx()),
{
    let to = x.to_spec().idx();
    let from = x.from_spec().unwrap();
    let single = single_moves(board, turn);
    let double = double_moves(board, turn);
    let reach = pawn_attacks_spec(turn, from.idx()) & board.by_color(turn.other_spec());
    lemma_set_bits(reach, t1, to);
    lemma_set_bits(reach, t2, to);
    lemma_set_bits(single & t1, !BACKRANKS, to);
    lemma_set_bits(single & t2, !BACKRANKS, to);
    lemma_set_bits(single & t1, BACKRANKS, to);
    lemma_set_bits(single & t2, BACKRANKS, to);
    lemma_set_bits(single, t1, to);
    lemma_set_bits(single, t2, to);
    lemma_set_bits(double, t1, to);
    lemma_set_bits(double, t2, to);
}

/// The moves of the king to safe squares of a target are exactly the moves
/// of the king to squares of the target beside it that the other side does
/// not attack.
pub proof fn lemma_safe_king_iff(board: BoardView, turn: Color, king: Square, target: u64, x: Move)
    ensures
        safe_king(board, turn, king, target).contains(x) <==> (is_normal(
            board,
            Role::King,
            king,
            x,
        ) && has_bit(king_attacks_spec(king.idx()), x.to_spec().idx()) && has_bit(
            target,
            x.to_spec().idx(),
        ) && board.attacks_to(x.to_spec().idx(), turn.other_spec(), board.occupied()) == 0),
{
    broadcast use Square::lemma_at_idx;
    broadcast use Square::lemma_idx_at;

    let f = each_safe_king_target(board, turn, king);
    let set = king_attacks_spec(king.idx()) & target;
    let to = x.to_spec();
    if safe_king(board, turn, king, target).contains(x) {
        let i = lemma_for_each_member(set, f, x);
        assert(f(Square::at(i))[0] == x);
        lemma_set_bits(king_attacks_spec(king.idx()), target, i);
    }
    if is_normal(board, Role::King, king, x) && has_bit(king_attacks_spec(king.idx()), to.idx())
        && has_bit(target, to.idx()) && board.attacks_to(
        to.idx(),
        turn.other_spec(),
        board.occupied(),
    ) == 0 {
        lemma_set_bits(king_attacks_spec(king.idx()), target, to.idx());
        assert(f(Square::at(to.idx()))[0] == x);
        lemma_for_each_has(set, f, to.idx(), x);
    }
}

/// A move is in a concatenation exactly if it is in one of the parts.
pub proof fn lemma_concat_iff(a: Seq<Move>, b: Seq<Move>, x: Move)
    ensures
        (a + b).contains(x) <==> a.contains(x) || b.contains(x),
{
    if (a + b).contains(x) {
        lemma_concat_member(a, b, x);
    }
    if a.contains(x) || b.contains(x) {
        lemma_member_concat(a, b, x);
    }
}

/// A move is among the moves that are kept exactly if it is among the
/// moves and is kept.
pub proof fn lemma_filter_iff(s: Seq<Move>, keep: spec_fn(Move) -> bool, x: Move)
    ensures
        s.filter(keep).contains(x) <==> s.contains(x) && keep(x),
{
    if s.filter(keep).contains(x) {
        s.lemma_filter_contains_rev(keep, x);
        let k = choose|k: int| 0 <= k < s.filter(keep).len() && s.filter(keep)[k] == x;
        s.lemma_filter_pred(keep, k);
    }
    if s.contains(x) && keep(x) {
        let k = choose|k: int| 0 <= k < s.len() && s[k] == x;
        s.lemma_filter_contains(keep, k);
    }
}

/// True if the move passes the test for the king where it is made.
pub open spec fn passes_pin(s: State, always: bool, x: Move) -> bool {
    match king(s) {
        Some(k) => {
            let blockers = slider_blockers(s.board, them(s), k);
            blockers != 0 || always ==> is_safe_spec(s.board, s.turn, k, x, blockers)
        },
        None => true,
    }
}

/// A move is left by the test for the king exactly if it was there and
/// passes the test.
pub proof fn lemma_pin_iff(s: State, pseudo: Seq<Move>, always: bool, x: Move)
    ensures
        pin_filtered(s, pseudo, always).contains(x) <==> pseudo.contains(x) && passes_pin(
            s,
            always,
            x,
        ),
{
    match king(s) {
        Some(k) => {
            let blockers = slider_blockers(s.board, them(s), k);
            lemma_filter_iff(pseudo, safe_fn(s.board, s.turn, k, blockers), x);
        },
        None => {},
    }
}

/// A move is among the moves of the pieces other than the king exactly if
/// it is among those of the pawns, knights, bishops, rooks or queens.
pub proof fn lemma_non_king_iff(board: BoardView, turn: Color, target: u64, x: Move)
    ensures
        non_king(board, turn, target).contains(x) <==> pawn_moves(board, turn, target).contains(x)
            || piece_moves(board, Piece { color: turn, role: Role::Knight }, target).contains(x)
            || piece_moves(board, Piece { color: turn, role: Role::Bishop }, target).contains(x)
            || piece_moves(board, Piece { color: turn, role: Role::Rook }, target).contains(x)
            || piece_moves(board, Piece { color: turn, role: Role::Queen }, target).contains(x),
{
    let p = pawn_moves(board, turn, target);
    let n = piece_moves(board, Piece { color: turn, role: Role::Knight }, target);
    let b = piece_moves(board, Piece { color: turn, role: Role::Bishop }, target);
    let r = piece_moves(board, Piece { color: turn, role: Role::Rook }, target);
    let q = piece_moves(board, Piece { color: turn, role: Role::Queen }, target);
    lemma_concat_iff(p, n, x);
    lemma_concat_iff(p + n, b, x);
    lemma_concat_iff(p + n + b, r, x);
    lemma_concat_iff(p + n + b + r, q, x);
}

/// The moves of a piece to a square that are found directly, without
/// check.
pub open spec fn direct_candidates(s: State, role: Role, to: Square) -> Seq<Move> {
    if has_bit(us(s), to.idx()) {
        Seq::empty()
    } else {
        (match role {
            Role::Pawn => pawn_moves(s.board, s.turn, bit(to.idx())),
            Role::King => safe_king_moves(s, bit(to.idx())),
            _ => Seq::empty(),
        }) + moves_from(
            s.board,
            role,
            reverse_attacks(s.board, role, to) & (us(s) & s.board.by_role(role)),
            to,
        )
    }
}

/// The moves of all pieces without check, en passant excepted.
pub open spec fn quiet_moves(s: State) -> Seq<Move> {
    non_king(s.board, s.turn, !us(s)) + safe_king_moves(s, !us(s)) + both_castlings(s)
}

/// A move of the king is among its moves to safe squares of a target
/// exactly if it is among those to any target that holds its square.
pub proof fn lemma_safe_king_target(s: State, t1: u64, t2: u64, x: Move)
    requires
        safe_king_moves(s, t1).contains(x),
        has_bit(t2, x.to_spec().idx()),
    ensures
        safe_king_moves(s, t2).contains(x),
        has_bit(t1, x.to_spec().idx()),
        x is Normal,
        x.role_spec() == Role::King,
{
    match king(s) {
        Some(k) => {
            lemma_safe_king_iff(s.board, s.turn, k, t1, x);
            lemma_safe_king_iff(s.board, s.turn, k, t2, x);
        },
        None => {},
    }
}

/// Without check, the moves of a piece to a square that are found directly
/// are the moves of all pieces that are moves of that piece to that
/// square.
pub proof fn lemma_direct(s: State, role: Role, to: Square, x: Move)
    requires
        well_formed(s),
        0 <= to.idx() < 64,
    ensures
        direct_candidates(s, role, to).contains(x) <==> quiet_moves(s).contains(x)
            && is_san_candidate(role, to, x),
{
    broadcast use Square::lemma_at_idx;

    let board = s.board;
    let turn = s.turn;
    let piece = Piece { color: turn, role };
    let only = bit(to.idx());
    let free = !us(s);
    let origins = reverse_attacks(board, role, to) & (us(s) & board.by_role(role));
    let first = match role {
        Role::Pawn => pawn_moves(board, turn, only),
        Role::King => safe_king_moves(s, only),
        _ => Seq::empty(),
    };
    let second = moves_from(board, role, origins, to);
    lemma_apart(us(s), 0, 0);
    lemma_non_king(s, free);
    lemma_safe_king_moves(s, free);
    lemma_both_castlings_shape(s);
    lemma_non_king_iff(board, turn, free, x);
    lemma_concat_iff(non_king(board, turn, free), safe_king_moves(s, free), x);
    lemma_concat_iff(non_king(board, turn, free) + safe_king_moves(s, free), both_castlings(s), x);
    lemma_concat_iff(first, second, x);
    lemma_moves_from(board, role, origins, to);
    lemma_set_bits(us(s), 0, to.idx());
    lemma_single(to.idx(), to.idx());
    lemma_pawn_moves_iff(board, turn, only, x);
    lemma_pawn_moves_iff(board, turn, free, x);
    lemma_pawn_moves(s, only);
    lemma_pawn_moves(s, free);
    lemma_apart(us(s) & board.by_role(role), 0, 0);
    lemma_piece_moves(board, Piece { color: turn, role: Role::Knight }, free);
    lemma_piece_moves(board, Piece { color: turn, role: Role::Bishop }, free);
    lemma_piece_moves(board, Piece { color: turn, role: Role::Rook }, free);
    lemma_piece_moves(board, Piece { color: turn, role: Role::Queen }, free);
    if direct_candidates(s, role, to).contains(x) {
        if first.contains(x) {
            if role == Role::Pawn {
                let t = x.to_spec().idx();
                lemma_single(to.idx(), t);
                lemma_pawn_move_target(board, turn, only, free, x);
            } else {
                match king(s) {
                    Some(k) => {
                        lemma_safe_king_iff(board, turn, k, only, x);
                        let t = x.to_spec().idx();
                        lemma_single(to.idx(), t);
                        lemma_safe_king_target(s, only, free, x);
                    },
                    None => {},
                }
            }
        } else {
            let from = x.from_spec().unwrap();
            lemma_set_bits(reverse_attacks(board, role, to), us(s) & board.by_role(role), from.idx());
            lemma_no_bits(from.idx());
            if role != Role::Pawn && role != Role::King {
                lemma_attacks_back(from.idx(), to.idx(), role, turn, turn, board.occupied());
                lemma_set_bits(attacks_spec(from.idx(), piece, board.occupied()), free, to.idx());
                assert(is_piece_move(board, piece, free, x));
                lemma_piece_moves_has(board, piece, free, x);
            }
        }
    }
    if quiet_moves(s).contains(x) && is_san_candidate(role, to, x) {
        let t = x.to_spec().idx();
        lemma_set_bits(us(s), 0, t);
        if non_king(board, turn, free).contains(x) {
            if pawn_moves(board, turn, free).contains(x) {
                lemma_pawn_move_target(board, turn, free, only, x);
            } else {
                let from = x.from_spec().unwrap();
                assert(is_piece_move(board, piece, free, x));
                lemma_attacks_back(from.idx(), to.idx(), role, turn, turn, board.occupied());
                lemma_set_bits(
                    reverse_attacks(board, role, to),
                    us(s) & board.by_role(role),
                    from.idx(),
                );
            }
        } else {
            lemma_safe_king_target(s, free, only, x);
        }
    }
}

/// The castling moves are castling moves.
pub proof fn lemma_both_castlings_shape(s: State)
    ensures
        forall|m: Move| #[trigger] both_castlings(s).contains(m) ==> m is Castle,
{
    match king(s) {
        Some(k) => {
            let a = crate::movegen::castling(
                s.variant,
                s.board,
                s.turn,
                s.castles,
                k,
                crate::types::CastlingSide::KingSide,
            );
            let b = crate::movegen::castling(
                s.variant,
                s.board,
                s.turn,
                s.castles,
                k,
                crate::types::CastlingSide::QueenSide,
            );
            lemma_castling(
                s.variant,
                s.board,
                s.turn,
                s.castles,
                k,
                crate::types::CastlingSide::KingSide,
            );
            lemma_castling(
                s.variant,
                s.board,
                s.turn,
                s.castles,
                k,
                crate::types::CastlingSide::QueenSide,
            );
            assert forall|m: Move| #[trigger] (a + b).contains(m) implies m is Castle by {
                lemma_concat_member(a, b, m);
            }
        },
        None => {},
    }
}

/// The en passant captures that are moves of a piece of `role` to `to`:
/// all of them for a pawn and the en passant square, and else none.
pub open spec fn en_passant_candidates(s: State, role: Role, to: Square) -> Seq<Move> {
    if role == Role::Pawn && Some(to) == s.ep_square {
        en_passant(s.board, s.turn, s.ep_square)
    } else {
        Seq::empty()
    }
}

/// The moves other than en passant captures among which the legal moves
/// are picked by the test for the king.
pub open spec fn other_moves(s: State) -> Seq<Move> {
    if checkers(s) == 0 {
        quiet_moves(s)
    } else {
        evasion_moves(s)
    }
}

/// The moves of a piece to a square, found directly, before the test for
/// the king.
pub open spec fn other_candidates(s: State, role: Role, to: Square) -> Seq<Move> {
    if checkers(s) == 0 {
        direct_candidates(s, role, to)
    } else {
        evasion_moves(s).filter(san_candidate_fn(role, to))
    }
}

/// The moves other than en passant captures are moves of pieces or
/// castling moves, and none comes twice.
pub proof fn lemma_other_moves(s: State)
    requires
        well_formed(s),
    ensures
        other_moves(s).no_duplicates(),
        forall|m: Move| #[trigger] other_moves(s).contains(m) ==> m is Normal || m is Castle,
{
    if checkers(s) == 0 {
        lemma_apart(us(s), 0, 0);
        lemma_non_king(s, !us(s));
        lemma_safe_king_moves(s, !us(s));
        lemma_both_castlings(s);
        let a = non_king(s.board, s.turn, !us(s));
        let b = safe_king_moves(s, !us(s));
        let c = both_castlings(s);
        crate::laws::lemma_join(s, a, b);
        crate::laws::lemma_join(s, a + b, c);
    } else {
        lemma_evasion_moves(s);
    }
}

/// A move is among the moves of a piece to a square that are found
/// directly exactly if it is a legal move by the rules of standard chess,
/// and a move of that piece to that square.
pub proof fn lemma_candidates(s: State, role: Role, to: Square, x: Move)
    requires
        well_formed(s),
        0 <= to.idx() < 64,
    ensures
        standard_san_candidates(s, role, to).contains(x) <==> standard_moves(s).contains(x)
            && is_san_candidate(role, to, x),
{
    let all_ep = en_passant(s.board, s.turn, s.ep_square);
    let ep = en_passant_candidates(s, role, to);
    let others = other_moves(s);
    let found = other_candidates(s, role, to);
    lemma_en_passant(s.board, s.turn, s.ep_square);
    lemma_other_moves(s);
    if checkers(s) == 0 {
        lemma_direct(s, role, to, x);
    } else {
        lemma_filter_iff(evasion_moves(s), san_candidate_fn(role, to), x);
    }
    assert(found.contains(x) <==> others.contains(x) && is_san_candidate(role, to, x));
    assert(ep.contains(x) <==> all_ep.contains(x) && is_san_candidate(role, to, x));
    lemma_concat_iff(found, ep, x);
    lemma_concat_iff(all_ep, others, x);
    lemma_pin_iff(s, found + ep, ep.len() > 0, x);
    lemma_pin_iff(s, all_ep + others, all_ep.len() > 0, x);
    assert(standard_san_candidates(s, role, to) == pin_filtered(s, found + ep, ep.len() > 0));
    assert(standard_moves(s) == pin_filtered(s, all_ep + others, all_ep.len() > 0));
    if (found + ep).contains(x) {
        if ep.contains(x) {
            assert(ep.len() > 0);
            assert(all_ep.len() > 0);
        } else {
            assert(others.contains(x));
            lemma_no_bits(x.from_spec().unwrap().idx());
        }
    }
}

/// The moves of a piece to a square that are found directly do not
/// repeat.
pub proof fn lemma_candidates_no_dup(s: State, role: Role, to: Square)
    requires
        well_formed(s),
        0 <= to.idx() < 64,
    ensures
        standard_san_candidates(s, role, to).no_duplicates(),
{
    let ep = en_passant_candidates(s, role, to);
    let found = other_candidates(s, role, to);
    lemma_en_passant(s.board, s.turn, s.ep_square);
    lemma_other_moves(s);
    if checkers(s) == 0 {
        if !has_bit(us(s), to.idx()) {
            let only = bit(to.idx());
            let origins = reverse_attacks(s.board, role, to) & (us(s) & s.board.by_role(role));
            let first = match role {
                Role::Pawn => pawn_moves(s.board, s.turn, only),
                Role::King => safe_king_moves(s, only),
                _ => Seq::empty(),
            };
            let second = moves_from(s.board, role, origins, to);
            crate::laws::lemma_small_sets(0, 0, us(s), to.idx() as u64);
            lemma_pawn_moves(s, only);
            lemma_safe_king_moves(s, only);
            lemma_moves_from(s.board, role, origins, to);
            lemma_apart(us(s) & s.board.by_role(role), 0, 0);
            if role == Role::Pawn || role == Role::King {
                assert(second =~= Seq::<Move>::empty());
                assert(first + second =~= first);
            } else {
                assert(first + second =~= second);
            }
        }
    } else {
        lemma_evasion_moves(s);
        lemma_filter_no_dup(evasion_moves(s), san_candidate_fn(role, to));
    }
    assert(found.no_duplicates());
    assert forall|x: Move| #[trigger] found.contains(x) implies !(x is EnPassant) by {
        if checkers(s) == 0 {
            lemma_direct(s, role, to, x);
        } else {
            lemma_filter_iff(evasion_moves(s), san_candidate_fn(role, to), x);
        }
    }
    assert forall|i: int, j: int| 0 <= i < found.len() && 0 <= j < ep.len() implies found[i]
        != ep[j] by {
        assert(found.contains(found[i]));
        assert(ep.contains(ep[j]));
    }
    vstd::seq_lib::lemma_no_dup_in_concat(found, ep);
    match king(s) {
        Some(k) => {
            let blockers = slider_blockers(s.board, them(s), k);
            lemma_filter_no_dup(found + ep, safe_fn(s.board, s.turn, k, blockers));
        },
        None => {},
    }
}

} // verus!
