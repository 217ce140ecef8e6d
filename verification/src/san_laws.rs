//! A legal move is found again from its notation.

use vstd::prelude::*;
use crate::attacks::pawn_attacks_spec;
use crate::bitboard::has_bit;
use crate::laws::{
    lemma_filter_no_dup, lemma_legal_moves, lemma_pawn_attack, lemma_roles, pseudo_legal,
    well_formed,
};
use crate::bitboard::BACKRANKS;
use crate::candidate_laws::{lemma_candidates, lemma_candidates_no_dup, lemma_for_each_has};
use crate::laws::{lemma_concat_member, lemma_drops, lemma_for_each_member, lemma_member_concat, lemma_standard_moves};
use crate::magic::lemma_set_bits;
use crate::position::{chess_part, standard_moves, standard_san_candidates};
use crate::rules::{
    drop_candidate, drops, each_drop_square, each_pawn_drop, piece_drop, put_squares,
};
use crate::position::{king, them, State};
use crate::rules::{legal_moves_spec, relevant_ep};
use crate::san::{
    is_rival, needs_file, san_match_fn, san_matches, san_pool, san_spec, to_move_spec, San,
};
use crate::square::{File, Rank, Square};
use crate::position::is_san_candidate;
use crate::types::{CastlingSide, Move, Role, Variant};

verus! {

/// True if the rook with which the side to move castles on the king side
/// stands on a higher file than its king, and the one of the queen side on
/// a lower file.
pub open spec fn castling_sides_apart(s: State) -> bool {
    match king(s) {
        Some(k) => {
            &&& (s.castles.rook_spec(s.turn, CastlingSide::KingSide) matches Some(r) ==> 0
                <= r.idx() < 64 && k.idx() % 8 < r.idx() % 8)
            &&& (s.castles.rook_spec(s.turn, CastlingSide::QueenSide) matches Some(r) ==> 0
                <= r.idx() < 64 && r.idx() % 8 < k.idx() % 8)
        },
        None => true,
    }
}

/// True if a position is fit for notation: it is well formed, an en
/// passant square on which a pawn can be captured is empty, and the
/// castling rooks of the side to move stand on the side of the king that
/// they are named after. Antichess has no castling.
pub open spec fn fit_for_notation(s: State) -> bool {
    &&& well_formed(s)
    &&& (relevant_ep(s) matches Some(e) ==> 0 <= e.idx() < 64 && !has_bit(
        s.board.occupied(),
        e.idx(),
    ))
    &&& (s.variant != Variant::Antichess ==> castling_sides_apart(s))
}

/// A sound position is fit for notation.
pub proof fn lemma_sound_fit(s: State)
    requires
        crate::reachable::sound(s),
    ensures
        fit_for_notation(s),
{
}

/// The legal moves of Antichess are moves of pieces and en passant
/// captures.
pub proof fn lemma_antichess_shape(s: State, m: Move)
    requires
        well_formed(s),
        s.variant == Variant::Antichess,
        legal_moves_spec(s).contains(m),
    ensures
        m is Normal || m is EnPassant,
{
    crate::laws::lemma_apart(s.board.white, s.board.black, 0);
    crate::laws::lemma_antichess_gen(s, them(s), true);
    crate::laws::lemma_antichess_gen(s, !s.board.occupied(), false);
}

/// True if a move is of the kind among which its notation picks: a move of
/// the piece and to the square that the notation names, or any move if the
/// notation is for castling.
pub open spec fn in_pool(san: San, x: Move) -> bool {
    match san {
        San::Normal { role, to, .. } => is_san_candidate(role, to, x),
        San::Put { role, to } => is_san_candidate(role, to, x),
        _ => true,
    }
}

/// A file or a rank is known by its index.
pub proof fn lemma_lines_differ(a: int, b: int)
    requires
        0 <= a < 8,
        0 <= b < 8,
    ensures
        File::at(a) == File::at(b) ==> a == b,
        Rank::at(a) == Rank::at(b) ==> a == b,
{
}

/// A move that follows the ways of the pieces fits its own notation, and
/// is of the kind among which the notation picks.
pub proof fn lemma_fits_own(s: State, m: Move)
    requires
        fit_for_notation(s),
        legal_moves_spec(s).contains(m),
        pseudo_legal(s, m),
    ensures
        san_matches(san_spec(s, m), m),
        in_pool(san_spec(s, m), m),
{
    crate::laws::lemma_king_of(s.board, s.turn);
    if s.variant == Variant::Antichess {
        lemma_antichess_shape(s, m);
    }
}

/// Two legal moves with the same notation are the same move.
pub proof fn lemma_same_notation(s: State, m: Move, x: Move)
    requires
        fit_for_notation(s),
        legal_moves_spec(s).contains(m),
        legal_moves_spec(s).contains(x),
        pseudo_legal(s, m),
        pseudo_legal(s, x),
        san_matches(san_spec(s, m), x),
        in_pool(san_spec(s, m), x),
    ensures
        x == m,
{
    broadcast use Square::lemma_at_idx;

    let legals = legal_moves_spec(s);
    let forward = crate::laws::forward(s.turn);
    match m {
        Move::Normal { role, from, capture, to, promotion } => {
            match x {
                Move::Normal { role: r, from: f, capture: c, to: t, promotion: p } => {
                    lemma_lines_differ(from.idx() % 8, f.idx() % 8);
                    lemma_lines_differ(from.idx() / 8, f.idx() / 8);
                    if role == Role::Pawn {
                        if capture.is_some() {
                            lemma_pawn_attack(s.turn, from.idx(), to.idx());
                            lemma_roles(s.board, to.idx());
                            if has_bit(pawn_attacks_spec(s.turn, f.idx()), to.idx()) {
                                lemma_pawn_attack(s.turn, f.idx(), to.idx());
                            }
                        } else {
                            lemma_roles(s.board, from.idx());
                            lemma_roles(s.board, f.idx());
                            lemma_set_bits(s.board.by_color(s.turn), s.board.pawns, from.idx());
                            lemma_set_bits(s.board.by_color(s.turn), s.board.pawns, f.idx());
                        }
                        assert(f.idx() == from.idx());
                    } else {
                        if f != from {
                            let j = choose|j: int| 0 <= j < legals.len() && legals[j] == x;
                            assert(is_rival(role, from, to, legals[j]));
                            if needs_file(from, x) {
                                assert(san_spec(s, m)->Normal_file == Some(from.file_spec()));
                            } else {
                                assert(san_spec(s, m)->Normal_rank == Some(from.rank_spec()));
                            }
                        }
                    }
                    assert(Square::at(f.idx()) == Square::at(from.idx()));
                },
                Move::EnPassant { from: f, to: t } => {
                    crate::reachable::lemma_legal_en_passant(s, x);
                    lemma_roles(s.board, to.idx());
                },
                _ => {},
            }
        },
        Move::EnPassant { from, to } => {
            crate::reachable::lemma_legal_en_passant(s, m);
            match x {
                Move::Normal { role: r, from: f, capture: c, to: t, promotion: p } => {
                    lemma_roles(s.board, to.idx());
                },
                Move::EnPassant { from: f, to: t } => {
                    let other = s.turn.other_spec();
                    lemma_lines_differ(from.idx() % 8, f.idx() % 8);
                    lemma_set_bits(
                        s.board.pawns & s.board.by_color(s.turn),
                        pawn_attacks_spec(other, to.idx()),
                        from.idx(),
                    );
                    lemma_set_bits(
                        s.board.pawns & s.board.by_color(s.turn),
                        pawn_attacks_spec(other, to.idx()),
                        f.idx(),
                    );
                    lemma_pawn_attack(other, to.idx(), from.idx());
                    lemma_pawn_attack(other, to.idx(), f.idx());
                    assert(f.idx() == from.idx());
                    assert(Square::at(f.idx()) == Square::at(from.idx()));
                },
                _ => {},
            }
        },
        Move::Castle { king, rook } => {
            if s.variant == Variant::Antichess {
                lemma_antichess_shape(s, m);
            }
        },
        Move::Put { role, to } => {},
    }
}

/// Of a list of legal moves that holds a move and is of the kind among
/// which its notation picks, that move alone fits the notation.
pub proof fn lemma_unique_fit(s: State, m: Move, pool: Seq<Move>)
    requires
        fit_for_notation(s),
        legal_moves_spec(s).contains(m),
        pool.no_duplicates(),
        pool.contains(m),
        forall|x: Move| #[trigger]
            pool.contains(x) ==> legal_moves_spec(s).contains(x) && in_pool(san_spec(s, m), x),
    ensures
        pool.filter(san_match_fn(san_spec(s, m))) == seq![m],
{
    let san = san_spec(s, m);
    let fitting = pool.filter(san_match_fn(san));
    lemma_legal_moves(s);
    lemma_filter_no_dup(pool, san_match_fn(san));
    lemma_fits_own(s, m);
    let k = choose|k: int| 0 <= k < pool.len() && pool[k] == m;
    pool.lemma_filter_contains(san_match_fn(san), k);
    assert(fitting.contains(m));
    assert forall|i: int| 0 <= i < fitting.len() implies fitting[i] == m by {
        let x = fitting[i];
        assert(fitting.contains(x));
        lemma_same_notation(s, m, x);
    }
    if fitting.len() > 1 {
        assert(fitting[0] == fitting[1]);
    }
    assert(fitting =~= seq![m]);
}

/// Picking the moves of a kind from the legal moves keeps the order and
/// loses no such move.
pub proof fn lemma_picked(s: State, keep: spec_fn(Move) -> bool, m: Move)
    requires
        well_formed(s),
        legal_moves_spec(s).contains(m),
        keep(m),
    ensures
        legal_moves_spec(s).filter(keep).no_duplicates(),
        legal_moves_spec(s).filter(keep).contains(m),
        forall|x: Move| #[trigger]
            legal_moves_spec(s).filter(keep).contains(x) ==> legal_moves_spec(s).contains(x)
                && keep(x),
{
    let legals = legal_moves_spec(s);
    lemma_legal_moves(s);
    lemma_filter_no_dup(legals, keep);
    let k = choose|k: int| 0 <= k < legals.len() && legals[k] == m;
    legals.lemma_filter_contains(keep, k);
}

/// In Atomic chess, Antichess, Racing Kings and Horde, the notation of a
/// legal move names that move and no other: it is found again from it.
pub proof fn lemma_round_trip_picked(s: State, m: Move)
    requires
        fit_for_notation(s),
        s.variant == Variant::Atomic || s.variant == Variant::Antichess || s.variant
            == Variant::RacingKings || s.variant == Variant::Horde,
        legal_moves_spec(s).contains(m),
    ensures
        to_move_spec(san_spec(s, m), s) == Ok::<Move, crate::san::SanError>(m),
{
    let san = san_spec(s, m);
    let legals = legal_moves_spec(s);
    lemma_legal_moves(s);
    lemma_fits_own(s, m);
    match san {
        San::Normal { role, to, .. } => {
            lemma_picked(s, crate::position::san_candidate_fn(role, to), m);
        },
        San::Put { role, to } => {
            lemma_picked(s, crate::position::san_candidate_fn(role, to), m);
        },
        _ => {},
    }
    lemma_unique_fit(s, m, san_pool(san, s));
}

/// A drop of a piece other than a king is among the drops of Crazyhouse
/// exactly if it is the drop of its piece on its square that is looked for
/// by itself.
pub proof fn lemma_drop_candidate(s: State, role: Role, to: Square, x: Move)
    requires
        role != Role::King,
        0 <= to.idx() < 64,
    ensures
        drop_candidate(s, role, to).contains(x) <==> drops(s).contains(x) && x == (Move::Put {
            role,
            to,
        }),
{
    broadcast use Square::lemma_at_idx;
    broadcast use Square::lemma_idx_at;

    let pocket = s.pockets.by_color_spec(s.turn);
    let squares = put_squares(s);
    let f = each_drop_square(pocket);
    let g = each_pawn_drop();
    let pieces = crate::movegen::for_each(squares, f);
    let pawns = if pocket.pawns > 0 {
        crate::movegen::for_each(squares & !BACKRANKS, g)
    } else {
        Seq::empty()
    };
    let put = Move::Put { role, to };
    let n = piece_drop(pocket, Role::Knight, to);
    let b = piece_drop(pocket, Role::Bishop, to);
    let r = piece_drop(pocket, Role::Rook, to);
    let q = piece_drop(pocket, Role::Queen, to);
    lemma_set_bits(squares, !BACKRANKS, to.idx());
    lemma_set_bits(BACKRANKS, 0, to.idx());
    if drop_candidate(s, role, to).contains(x) {
        assert(drop_candidate(s, role, to)[0] == x);
        if role == Role::Pawn {
            assert(g(Square::at(to.idx()))[0] == x);
            lemma_for_each_has(squares & !BACKRANKS, g, to.idx(), x);
        } else {
            if role == Role::Knight {
                assert(n[0] == x);
            } else if role == Role::Bishop {
                assert(b[0] == x);
            } else if role == Role::Rook {
                assert(r[0] == x);
            } else {
                assert(q[0] == x);
            }
            crate::candidate_laws::lemma_concat_iff(n, b, x);
            crate::candidate_laws::lemma_concat_iff(n + b, r, x);
            crate::candidate_laws::lemma_concat_iff(n + b + r, q, x);
            lemma_for_each_has(squares, f, to.idx(), x);
        }
        lemma_member_concat(pieces, pawns, x);
    }
    if drops(s).contains(x) && x == put {
        lemma_concat_member(pieces, pawns, x);
        if pieces.contains(x) {
            let i = lemma_for_each_member(squares, f, x);
            let at = Square::at(i);
            let n1 = piece_drop(pocket, Role::Knight, at);
            let b1 = piece_drop(pocket, Role::Bishop, at);
            let r1 = piece_drop(pocket, Role::Rook, at);
            let q1 = piece_drop(pocket, Role::Queen, at);
            lemma_concat_member(n1 + b1 + r1, q1, x);
            if q1.contains(x) {
                assert(q1[0] == x);
            } else {
                lemma_concat_member(n1 + b1, r1, x);
                if r1.contains(x) {
                    assert(r1[0] == x);
                } else {
                    lemma_concat_member(n1, b1, x);
                    if b1.contains(x) {
                        assert(b1[0] == x);
                    } else {
                        assert(n1[0] == x);
                    }
                }
            }
        } else {
            let i = lemma_for_each_member(squares & !BACKRANKS, g, x);
            assert(g(Square::at(i))[0] == x);
            lemma_set_bits(squares, !BACKRANKS, i);
            lemma_set_bits(BACKRANKS, 0, i);
        }
        assert(drop_candidate(s, role, to)[0] == x);
    }
}

/// The moves of a piece to a square that are found directly by the rules
/// of standard chess do not repeat, are legal moves of that piece to that
/// square, and hold every such legal move.
pub proof fn lemma_standard_pool(t: State, role: Role, to: Square)
    requires
        well_formed(t),
        0 <= to.idx() < 64,
    ensures
        standard_san_candidates(t, role, to).no_duplicates(),
        forall|x: Move| #[trigger]
            standard_san_candidates(t, role, to).contains(x) <==> standard_moves(t).contains(x)
                && is_san_candidate(role, to, x),
{
    lemma_candidates_no_dup(t, role, to);
    assert forall|x: Move| #[trigger]
        standard_san_candidates(t, role, to).contains(x) <==> standard_moves(t).contains(x)
            && is_san_candidate(role, to, x) by {
        lemma_candidates(t, role, to, x);
    }
}

/// In the variants that follow the rules of standard chess, the notation
/// of a legal move names that move and no other.
pub proof fn lemma_round_trip_standard(s: State, m: Move)
    requires
        fit_for_notation(s),
        s.variant == Variant::Chess || s.variant == Variant::KingOfTheHill || s.variant
            == Variant::ThreeCheck || s.variant == Variant::Crazyhouse,
        legal_moves_spec(s).contains(m),
    ensures
        to_move_spec(san_spec(s, m), s) == Ok::<Move, crate::san::SanError>(m),
{
    let san = san_spec(s, m);
    let t = chess_part(s);
    let legals = legal_moves_spec(s);
    let keep = san_match_fn(san);
    lemma_legal_moves(s);
    lemma_fits_own(s, m);
    lemma_standard_moves(t);
    if m is EnPassant {
        crate::reachable::lemma_legal_en_passant(s, m);
    }
    match san {
        San::Normal { role, to, .. } => {
            let found = standard_san_candidates(t, role, to);
            lemma_standard_pool(t, role, to);
            if s.variant == Variant::Crazyhouse {
                let one = drop_candidate(s, role, to);
                lemma_drops(s);
                crate::candidate_laws::lemma_concat_iff(standard_moves(t), drops(s), m);
                assert forall|x: Move| #[trigger] found.contains(x) implies legals.contains(x) by {
                    lemma_member_concat(standard_moves(t), drops(s), x);
                }
                assert(one.filter(keep) =~= Seq::<Move>::empty()) by {
                    if one.filter(keep).len() > 0 {
                        let x = one.filter(keep)[0];
                        assert(one.filter(keep).contains(x));
                        crate::candidate_laws::lemma_filter_iff(one, keep, x);
                        assert(one[0] == x);
                    }
                }
                Seq::filter_distributes_over_add(found, one, keep);
                lemma_unique_fit(s, m, found);
                assert(found.filter(keep) + one.filter(keep) =~= found.filter(keep));
            } else {
                lemma_unique_fit(s, m, found);
            }
        },
        San::Put { role, to } => {
            let found = standard_san_candidates(t, role, to);
            let one = drop_candidate(s, role, to);
            lemma_standard_pool(t, role, to);
            lemma_drops(s);
            crate::candidate_laws::lemma_concat_iff(standard_moves(t), drops(s), m);
            lemma_drop_candidate(s, role, to, m);
            assert forall|x: Move| #[trigger] (found + one).contains(x) implies legals.contains(x)
                && in_pool(san, x) by {
                lemma_concat_member(found, one, x);
                if one.contains(x) {
                    lemma_drop_candidate(s, role, to, x);
                }
                lemma_member_concat(standard_moves(t), drops(s), x);
            }
            lemma_member_concat(found, one, m);
            assert forall|i: int, j: int|
                0 <= i < found.len() && 0 <= j < one.len() implies found[i] != one[j] by {
                assert(found.contains(found[i]));
                assert(one.contains(one[j]));
                lemma_drop_candidate(s, role, to, one[j]);
            }
            vstd::seq_lib::lemma_no_dup_in_concat(found, one);
            lemma_unique_fit(s, m, found + one);
        },
        _ => {
            lemma_unique_fit(s, m, legals);
        },
    }
}

/// The notation of a legal move names that move and no other: the move is
/// found again from its notation, in every variant.
pub proof fn lemma_round_trip(s: State, m: Move)
    requires
        fit_for_notation(s),
        legal_moves_spec(s).contains(m),
    ensures
        to_move_spec(san_spec(s, m), s) == Ok::<Move, crate::san::SanError>(m),
{
    if s.variant == Variant::Atomic || s.variant == Variant::Antichess || s.variant
        == Variant::RacingKings || s.variant == Variant::Horde {
        lemma_round_trip_picked(s, m);
    } else {
        lemma_round_trip_standard(s, m);
    }
}

} // verus!
