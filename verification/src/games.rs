//! What holds of every position of a game: of every position that legal
//! moves lead to from the starting position of a variant, or from another
//! position of which it holds.

use vstd::prelude::*;
use crate::bitboard::BACKRANKS;
use crate::color::Color;
use crate::laws::{kings_of, pawns_of};
use crate::position::{board_after, State};
use crate::reachable::{initial, sound};
use crate::rules::{legal_moves_spec, play_spec};
use crate::safety::king_safe;
use crate::secure::{exactly_one, plays_standard, secure};
use crate::types::{Move, Variant};

verus! {

/// The position after the moves are played one after the other.
pub open spec fn after_moves(s: State, moves: Seq<Move>) -> State
    decreases moves.len(),
{
    if moves.len() == 0 {
        s
    } else {
        play_spec(after_moves(s, moves.drop_last()), moves.last())
    }
}

/// True if each of the moves is legal where it is played.
pub open spec fn is_game(s: State, moves: Seq<Move>) -> bool
    decreases moves.len(),
{
    moves.len() == 0 || (is_game(s, moves.drop_last()) && legal_moves_spec(
        after_moves(s, moves.drop_last()),
    ).contains(moves.last()))
}

/// Every position of a game that starts from a sound position is sound:
/// its board is well formed, each side has one king at most, unless the
/// game is one of Antichess, and no pawn stands on the first or last
/// rank, unless the game is one of Horde.
pub proof fn lemma_game_sound(s: State, moves: Seq<Move>)
    requires
        sound(s),
        is_game(s, moves),
    ensures
        sound(after_moves(s, moves)),
    decreases moves.len(),
{
    if moves.len() > 0 {
        lemma_game_sound(s, moves.drop_last());
        crate::reachable::lemma_play_sound(after_moves(s, moves.drop_last()), moves.last());
    }
}

/// Every position of a game is sound, in every variant.
pub proof fn lemma_every_game_sound(variant: Variant, moves: Seq<Move>)
    requires
        is_game(initial(variant), moves),
    ensures
        sound(after_moves(initial(variant), moves)),
{
    crate::reachable::lemma_initial_sound(variant);
    lemma_game_sound(initial(variant), moves);
}

/// Every position of a game that starts from a secure position is
/// secure.
pub proof fn lemma_game_secure(s: State, moves: Seq<Move>)
    requires
        secure(s),
        is_game(s, moves),
    ensures
        secure(after_moves(s, moves)),
    decreases moves.len(),
{
    if moves.len() > 0 {
        lemma_game_secure(s, moves.drop_last());
        crate::secure::lemma_play_secure(after_moves(s, moves.drop_last()), moves.last());
    }
}

/// In every position of a game of standard chess, King of the Hill,
/// Three-Check, Crazyhouse, Racing Kings or Horde the legal moves are
/// exactly the moves that the pieces can make and that leave the king of
/// the side that moves out of check, and in Racing Kings that of the
/// other side too, as long as the game is not over by the rule of the
/// variant.
pub proof fn lemma_every_game_exact(variant: Variant, moves: Seq<Move>, m: Move)
    requires
        plays_standard(variant),
        is_game(initial(variant), moves),
    ensures
        ({
            let s = after_moves(initial(variant), moves);
            legal_moves_spec(s).contains(m) <==> !crate::exact_moves::is_over(s)
                && crate::exact_moves::playable(s, m) && king_safe(
                board_after(s.board, s.turn, m),
                s.turn,
            ) && (variant == Variant::RacingKings ==> king_safe(
                board_after(s.board, s.turn, m),
                s.turn.other_spec(),
            ))
        }),
{
    crate::secure::lemma_initial_secure(variant);
    lemma_game_secure(initial(variant), moves);
    lemma_game_variant(initial(variant), moves);
    crate::exact_moves::lemma_legal_exact(after_moves(initial(variant), moves), m);
}

/// A game stays with its variant.
pub proof fn lemma_game_variant(s: State, moves: Seq<Move>)
    ensures
        after_moves(s, moves).variant == s.variant,
    decreases moves.len(),
{
    if moves.len() > 0 {
        lemma_game_variant(s, moves.drop_last());
    }
}

/// A side that has exactly one king in a secure position has exactly one
/// king in every position of the game, and a side without a king has
/// none.
pub proof fn lemma_game_kings(s: State, moves: Seq<Move>, color: Color)
    requires
        secure(s),
        is_game(s, moves),
    ensures
        exactly_one(kings_of(s.board, color)) ==> exactly_one(
            kings_of(after_moves(s, moves).board, color),
        ),
        kings_of(s.board, color) == 0 ==> kings_of(after_moves(s, moves).board, color) == 0,
    decreases moves.len(),
{
    if moves.len() > 0 {
        let before = after_moves(s, moves.drop_last());
        lemma_game_kings(s, moves.drop_last(), color);
        lemma_game_secure(s, moves.drop_last());
        crate::secure::lemma_play_keeps_kings(before, moves.last(), color);
        if exactly_one(kings_of(before.board, color)) {
            crate::secure::lemma_play_one_king(before, moves.last(), color);
        }
    }
}

/// A color whose pawns stand neither on the first nor on the last rank of
/// a sound position has no pawn there in any position of the game.
pub proof fn lemma_game_pawns(s: State, moves: Seq<Move>, color: Color)
    requires
        sound(s),
        is_game(s, moves),
        pawns_of(s.board, color) & BACKRANKS == 0,
    ensures
        pawns_of(after_moves(s, moves).board, color) & BACKRANKS == 0,
    decreases moves.len(),
{
    if moves.len() > 0 {
        lemma_game_pawns(s, moves.drop_last(), color);
        lemma_game_sound(s, moves.drop_last());
        crate::secure::lemma_play_keeps_pawns_off(
            after_moves(s, moves.drop_last()),
            moves.last(),
            color,
        );
    }
}

/// In every position of a game of Horde black has exactly one king and no
/// pawn on the first or last rank, and white has no king.
pub proof fn lemma_horde_game(moves: Seq<Move>)
    requires
        is_game(initial(Variant::Horde), moves),
    ensures
        exactly_one(kings_of(after_moves(initial(Variant::Horde), moves).board, Color::Black)),
        kings_of(after_moves(initial(Variant::Horde), moves).board, Color::White) == 0,
        pawns_of(after_moves(initial(Variant::Horde), moves).board, Color::Black) & BACKRANKS
            == 0,
{
    let s = initial(Variant::Horde);
    crate::secure::lemma_initial_secure(Variant::Horde);
    crate::secure::lemma_initial_kings(Variant::Horde);
    lemma_game_kings(s, moves, Color::Black);
    lemma_game_kings(s, moves, Color::White);
    lemma_game_pawns(s, moves, Color::Black);
}

/// In every position of a game, in every variant, a legal move is found
/// again from its notation.
pub proof fn lemma_every_game_round_trip(variant: Variant, moves: Seq<Move>, m: Move)
    requires
        is_game(initial(variant), moves),
        legal_moves_spec(after_moves(initial(variant), moves)).contains(m),
    ensures
        crate::san::to_move_spec(
            crate::san::san_spec(after_moves(initial(variant), moves), m),
            after_moves(initial(variant), moves),
        ) == Ok::<Move, crate::san::SanError>(m),
{
    lemma_every_game_sound(variant, moves);
    crate::san_laws::lemma_sound_fit(after_moves(initial(variant), moves));
    crate::san_laws::lemma_round_trip(after_moves(initial(variant), moves), m);
}

} // verus!
