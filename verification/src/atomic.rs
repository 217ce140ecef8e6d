//! Atomic chess: captures set off explosions.

use vstd::prelude::*;
use crate::attacks;
use crate::bitboard::{DARK_SQUARES, LIGHT_SQUARES, Bitboard};
use crate::board::Board;
use crate::color::Color;
use crate::material::Material;
use crate::movegen;
use crate::laws::{lemma_legal_moves, lemma_play_well_formed, lemma_setup_well_formed, well_formed};
use crate::movelist::MoveList;
use crate::position::{all_checks, do_move, filter_san_candidates, is_irreversible_by, no_pockets, retain_captures, retain_castling, retain_en_passant, retain_promotions, validate, FromSetup, Outcome, Parts, Position, PositionError, PositionErrorKind, State};
use crate::rules::{atomic_insufficient, atomic_keep_fn, atomic_keeps, atomic_moves, atomic_play, atomic_pseudo, relevant_ep, setup_of};
use crate::setup::{Castles, Setup, SetupView};
use crate::square::Square;
use crate::types::{CastlingMode, CastlingSide, Move, RemainingChecks, Role, Variant};

verus! {

/// An Atomic Chess position.
#[derive(Clone, Copy, Debug)]
pub struct Atomic {
    board: Board,
    turn: Color,
    castles: Castles,
    ep_square: Option<Square>,
    halfmoves: u32,
    fullmoves: u32,
}

/// Tests if `color` has insufficient winning material in Atomic chess.
fn is_atomic_insufficient(board: &Board, color: Color) -> (r: bool)
    ensures
        r == atomic_insufficient(board@, color),
{
    let ours = board.by_color(color);
    let theirs = board.by_color(color.other());
    let occupied = board.occupied();
    // Remaining material does not matter if the king of the opponent is
    // already exploded.
    if theirs.0 & board.kings().0 == 0 {
        return false;
    }
    // Bare king can not mate.
    if ours.0 & !board.kings().0 == 0 {
        return true;
    }
    // As long as the king of the opponent is not alone there is always a
    // chance that one of its own pieces explodes next to it.
    if theirs.0 & !board.kings().0 != 0 {
        // Unless there are only bishops that cannot explode each other.
        if occupied.0 == board.kings().0 | board.bishops().0 {
            if board.bishops().0 & board.white().0 & DARK_SQUARES == 0 {
                return board.bishops().0 & board.black().0 & LIGHT_SQUARES == 0;
            }
            if board.bishops().0 & board.white().0 & LIGHT_SQUARES == 0 {
                return board.bishops().0 & board.black().0 & DARK_SQUARES == 0;
            }
        }
        return false;
    }
    // Queen or pawn (future queen) can give mate against bare king.
    if board.queens().any() || board.pawns().any() {
        return false;
    }
    // Single knight, bishop or rook can not mate against bare king.
    if Bitboard(board.knights().0 | board.bishops().0 | board.rooks().0).count() == 1 {
        return true;
    }
    // Two knights can not mate against bare king.
    if occupied.0 == board.kings().0 | board.knights().0 {
        return board.knights().count() <= 2;
    }
    false
}

impl Atomic {
    #[verifier::type_invariant]
    spec fn inv(&self) -> bool {
        well_formed(self.held())
    }

    /// What the position holds.
    pub closed spec fn held(&self) -> State {
        State {
            variant: Variant::Atomic,
            board: self.board@,
            turn: self.turn,
            castles: self.castles,
            ep_square: self.ep_square,
            halfmoves: self.halfmoves,
            fullmoves: self.fullmoves,
            pockets: no_pockets(),
            remaining_checks: all_checks(),
        }
    }

    /// The starting position of Atomic chess.
    pub fn new() -> (r: Atomic)
        ensures
            r.held() == crate::reachable::initial(Variant::Atomic),
    {
        proof {
            crate::laws::lemma_standard_castles();
        }
        Atomic {
            board: Board::new(),
            turn: Color::White,
            castles: Castles::new(),
            ep_square: None,
            halfmoves: 0,
            fullmoves: 1,
        }
    }

    fn parts(&self) -> (r: Parts<'_>)
        ensures
            r.of(self.held()),
    {
        Parts {
            variant: Variant::Atomic,
            board: &self.board,
            turn: self.turn,
            castles: &self.castles,
            ep_square: self.ep_square,
        }
    }

    /// Makes a move, with the explosion that a capture sets off.
    fn explode(&mut self, m: &Move)
        ensures
            final(self).held() == atomic_play(old(self).held(), *m),
    {
        let ghost before = self.held();
        let mut board = self.board;
        let mut turn = self.turn;
        let mut castles = self.castles;
        let mut ep_square = self.ep_square;
        let mut halfmoves = self.halfmoves;
        let mut fullmoves = self.fullmoves;
        proof {
            use_type_invariant(&*self);
            lemma_play_well_formed(before, *m);
        }
        do_move(
            &mut board,
            &mut turn,
            &mut castles,
            &mut ep_square,
            &mut halfmoves,
            &mut fullmoves,
            m,
        );
        let destination = match *m {
            Move::Normal { capture: Some(_), to, .. } => Some(to),
            Move::EnPassant { to, .. } => Some(to),
            _ => None,
        };
        if let Some(to) = destination {
            board.discard_piece_at(to);
            let radius = Bitboard(
                attacks::king_attacks(to).0 & board.occupied().0 & !board.pawns().0,
            );
            if radius.0 & board.kings().0 & board.by_color(turn).0 != 0 {
                castles.discard_side(turn);
            }
            board.discard_pieces(radius);
            castles.discard_rooks(radius);
        }
        *self = Atomic { board, turn, castles, ep_square, halfmoves, fullmoves };
    }

    /// Tells whether the side to move still has its king after the move,
    /// and either the other king is gone or its own king is not attacked.
    fn keeps_king(&self, m: &Move) -> (r: bool)
        ensures
            r == atomic_keeps(self.held(), *m),
    {
        let mut after = *self;
        after.explode(m);
        match after.board.king_of(self.turn) {
            Some(k) => after.board.kings().0 & after.board.by_color(self.turn.other()).0 == 0
                || movegen::king_attackers(
                Variant::Atomic,
                &after.board,
                k,
                self.turn.other(),
                after.board.occupied(),
            ).is_empty(),
            None => false,
        }
    }

    /// Collects the legal moves.
    fn gen_legal(&self, moves: &mut MoveList)
        ensures
            final(moves)@ == atomic_moves(self.held()),
    {
        moves.clear();
        movegen::gen_en_passant(&self.board, self.turn, self.ep_square, moves);
        movegen::gen_non_king(&self.board, self.turn, Bitboard(!self.board.by_color(self.turn).0), moves);
        movegen::gen_piece_moves(
            &self.board,
            self.turn.king(),
            Bitboard(!self.board.occupied().0),
            moves,
        );
        self.parts().gen_both_castlings(moves, Ghost(self.held()));
        assert(moves@ =~= atomic_pseudo(self.held()));
        // Atomic move generation could be implemented more efficiently.
        // For simplicity all pseudo legal moves are filtered.
        let f = |m: &Move| -> (r: bool)
            ensures
                r == atomic_keeps(self.held(), *m),
            { self.keeps_king(m) };
        moves.retain_by(f, Ghost(atomic_keep_fn(self.held())));
    }

    /// The en passant square, if there is a legal en passant capture.
    fn relevant_ep_square(&self) -> (r: Option<Square>)
        ensures
            r == relevant_ep(self.held()),
    {
        match self.ep_square {
            Some(e) => {
                let mut moves = MoveList::new();
                self.gen_legal(&mut moves);
                retain_en_passant(&mut moves);
                if moves.is_empty() {
                    None
                } else {
                    Some(e)
                }
            },
            None => None,
        }
    }
}

impl Setup for Atomic {
    open spec fn setup(&self) -> SetupView {
        setup_of(self.held())
    }

    fn board(&self) -> (r: &Board) {
        &self.board
    }

    fn pockets(&self) -> (r: Option<Material>) {
        None
    }

    fn turn(&self) -> (r: Color) {
        self.turn
    }

    fn castling_rights(&self) -> (r: Bitboard) {
        self.castles.castling_rights()
    }

    fn ep_square(&self) -> (r: Option<Square>) {
        self.relevant_ep_square()
    }

    fn remaining_checks(&self) -> (r: Option<RemainingChecks>) {
        None
    }

    fn halfmoves(&self) -> (r: u32) {
        self.halfmoves
    }

    fn fullmoves(&self) -> (r: u32) {
        self.fullmoves
    }
}

impl FromSetup for Atomic {
    fn from_setup_with_mode<S: Setup>(setup: &S, mode: Option<CastlingMode>) -> (r: Result<
        Atomic,
        PositionError<Atomic>,
    >) {
        let (castles, errors) = match Castles::from_setup_with_mode(setup, mode) {
            Ok(castles) => (castles, PositionErrorKind::empty()),
            Err(castles) => {
                let mut bad = PositionErrorKind::empty();
                bad.bad_castling_rights = true;
                (castles, bad)
            },
        };
        let fullmoves = setup.fullmoves();
        let wf_board = setup.board().occupied();
        proof {
            lemma_setup_well_formed(Variant::Atomic, setup.setup(), mode);
        }
        let pos = Atomic {
            board: *setup.board(),
            turn: setup.turn(),
            castles,
            ep_square: setup.ep_square(),
            halfmoves: setup.halfmoves(),
            fullmoves: if fullmoves == 0 {
                1
            } else {
                fullmoves
            },
        };
        let mut errors = validate(&pos).union(errors);
        if pos.board.by_color(pos.turn.other()).0 & pos.board.kings().0 != 0 {
            // Our king just exploded. Game over, but valid position.
            errors.missing_king = false;
        }
        errors.impossible_check = false;
        PositionError { pos: Some(pos), errors }.strict()
    }
}

impl Position for Atomic {
    open spec fn state(&self) -> State {
        self.held()
    }

    open spec fn variant() -> Variant {
        Variant::Atomic
    }

    proof fn lemma_setup(&self) {
    }

    fn maybe_ep_square(&self) -> (r: Option<Square>) {
        self.ep_square
    }

    fn castles(&self) -> (r: &Castles) {
        proof {
            use_type_invariant(self);
        }
        &self.castles
    }

    fn play_unchecked(&mut self, m: &Move) {
        self.explode(m);
    }

    fn legal_moves(&self, moves: &mut MoveList) {
        proof {
            use_type_invariant(self);
            lemma_legal_moves(self.held());
        }
        self.gen_legal(moves);
    }

    fn san_candidates(&self, role: Role, to: Square, moves: &mut MoveList) {
        self.gen_legal(moves);
        filter_san_candidates(role, to, moves);
    }

    fn castling_moves(&self, side: CastlingSide, moves: &mut MoveList) {
        self.gen_legal(moves);
        retain_castling(side, moves);
    }

    fn en_passant_moves(&self, moves: &mut MoveList) {
        self.gen_legal(moves);
        retain_en_passant(moves);
    }

    fn capture_moves(&self, moves: &mut MoveList) {
        self.gen_legal(moves);
        retain_captures(moves);
    }

    fn promotion_moves(&self, moves: &mut MoveList) {
        self.gen_legal(moves);
        retain_promotions(moves);
    }

    fn is_irreversible(&self, m: &Move) -> (r: bool) {
        is_irreversible_by(
            self.castles.castling_rights(),
            self.castles.has_side(self.turn),
            self.relevant_ep_square().is_some(),
            m,
        )
    }

    fn king_attackers(&self, square: Square, attacker: Color, occupied: Bitboard) -> (r: Bitboard) {
        movegen::king_attackers(Variant::Atomic, &self.board, square, attacker, occupied)
    }

    fn is_variant_end(&self) -> (r: bool) {
        self.board.white().0 & self.board.kings().0 == 0 || self.board.black().0
            & self.board.kings().0 == 0
    }

    fn has_insufficient_material(&self, color: Color) -> (r: bool) {
        is_atomic_insufficient(&self.board, color)
    }

    fn variant_outcome(&self) -> (r: Option<Outcome>) {
        if self.board.white().0 & self.board.kings().0 == 0 {
            Some(Outcome::Decisive { winner: Color::Black })
        } else if self.board.black().0 & self.board.kings().0 == 0 {
            Some(Outcome::Decisive { winner: Color::White })
        } else {
            None
        }
    }
}

impl Default for Atomic {
    fn default() -> (r: Atomic)
        ensures
            r.held() == crate::reachable::initial(Variant::Atomic),
    {
        Atomic::new()
    }
}

} // verus!
