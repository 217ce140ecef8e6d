//! King of the Hill: the king that reaches the center wins.

use vstd::prelude::*;
use crate::bitboard::{CENTER, Bitboard};
use crate::board::Board;
use crate::color::Color;
use crate::material::Material;
use crate::laws::lemma_legal_moves;
use crate::movelist::MoveList;
use crate::position::{
    retain_captures, retain_promotions, Chess, FromSetup, Outcome, Position, PositionError, State,
};
use crate::rules::{hill_end, legal_moves_spec, setup_of};
use crate::setup::{Castles, Setup, SetupView};
use crate::square::Square;
use crate::types::{CastlingMode, CastlingSide, Move, RemainingChecks, Role, Variant};

verus! {

broadcast use Chess::lemma_held;

/// A King of the Hill position.
#[derive(Clone, Copy, Debug)]
pub struct KingOfTheHill {
    chess: Chess,
}

impl KingOfTheHill {
    /// What the position holds.
    pub closed spec fn held(&self) -> State {
        State { variant: Variant::KingOfTheHill, ..self.chess.held() }
    }

    /// The starting position of King of the Hill.
    pub fn new() -> (r: KingOfTheHill)
        ensures
            r.held() == crate::reachable::initial(Variant::KingOfTheHill),
    {
        KingOfTheHill { chess: Chess::new() }
    }

    /// Tells whether a king stands on the hill.
    fn on_hill(&self) -> (r: bool)
        ensures
            r == hill_end(self.held()),
    {
        self.chess.board().kings().0 & CENTER != 0
    }

    /// Collects the legal moves.
    fn gen_legal(&self, moves: &mut MoveList)
        ensures
            final(moves)@ == legal_moves_spec(self.held()),
    {
        if self.on_hill() {
            moves.clear();
        } else {
            self.chess.legal_moves(moves);
        }
    }
}

impl Setup for KingOfTheHill {
    open spec fn setup(&self) -> SetupView {
        setup_of(self.held())
    }

    fn board(&self) -> (r: &Board) {
        self.chess.board()
    }

    fn pockets(&self) -> (r: Option<Material>) {
        None
    }

    fn turn(&self) -> (r: Color) {
        self.chess.turn()
    }

    fn castling_rights(&self) -> (r: Bitboard) {
        self.chess.castling_rights()
    }

    fn ep_square(&self) -> (r: Option<Square>) {
        self.chess.ep_square()
    }

    fn remaining_checks(&self) -> (r: Option<RemainingChecks>) {
        None
    }

    fn halfmoves(&self) -> (r: u32) {
        self.chess.halfmoves()
    }

    fn fullmoves(&self) -> (r: u32) {
        self.chess.fullmoves()
    }
}

impl FromSetup for KingOfTheHill {
    fn from_setup_with_mode<S: Setup>(setup: &S, mode: Option<CastlingMode>) -> (r: Result<
        KingOfTheHill,
        PositionError<KingOfTheHill>,
    >) {
        let (chess, errors) = Chess::from_setup_with_mode_unchecked(setup, mode);
        PositionError { pos: Some(KingOfTheHill { chess }), errors }.strict()
    }
}

impl Position for KingOfTheHill {
    open spec fn state(&self) -> State {
        self.held()
    }

    open spec fn variant() -> Variant {
        Variant::KingOfTheHill
    }

    proof fn lemma_setup(&self) {
    }

    fn play_unchecked(&mut self, m: &Move) {
        self.chess.play_unchecked(m);
    }

    fn maybe_ep_square(&self) -> (r: Option<Square>) {
        self.chess.maybe_ep_square()
    }

    fn castles(&self) -> (r: &Castles) {
        self.chess.castles()
    }

    fn legal_moves(&self, moves: &mut MoveList) {
        let _ = self.chess.castles();
        proof {
            lemma_legal_moves(self.held());
        }
        self.gen_legal(moves);
    }

    fn castling_moves(&self, side: CastlingSide, moves: &mut MoveList) {
        if self.on_hill() {
            moves.clear();
        } else {
            self.chess.castling_moves(side, moves);
        }
    }

    fn en_passant_moves(&self, moves: &mut MoveList) {
        if self.on_hill() {
            moves.clear();
        } else {
            self.chess.en_passant_moves(moves);
        }
    }

    fn san_candidates(&self, role: Role, to: Square, moves: &mut MoveList) {
        if self.on_hill() {
            moves.clear();
        } else {
            self.chess.san_candidates(role, to, moves);
        }
    }

    fn capture_moves(&self, moves: &mut MoveList) {
        self.gen_legal(moves);
        retain_captures(moves);
    }

    fn promotion_moves(&self, moves: &mut MoveList) {
        self.gen_legal(moves);
        retain_promotions(moves);
    }

    fn is_irreversible(&self, m: &Move) -> (r: bool) {
        self.chess.is_irreversible(m)
    }

    fn king_attackers(&self, square: Square, attacker: Color, occupied: Bitboard) -> (r: Bitboard) {
        self.chess.king_attackers(square, attacker, occupied)
    }

    fn has_insufficient_material(&self, color: Color) -> (r: bool) {
        // Even a lone king can walk onto the hill.
        false
    }

    fn is_variant_end(&self) -> (r: bool) {
        self.on_hill()
    }

    fn variant_outcome(&self) -> (r: Option<Outcome>) {
        let kings = self.chess.board().kings();
        if self.chess.board().white().0 & kings.0 & CENTER != 0 {
            Some(Outcome::Decisive { winner: Color::White })
        } else if self.chess.board().black().0 & kings.0 & CENTER != 0 {
            Some(Outcome::Decisive { winner: Color::Black })
        } else {
            None
        }
    }
}

impl Default for KingOfTheHill {
    fn default() -> (r: KingOfTheHill)
        ensures
            r.held() == crate::reachable::initial(Variant::KingOfTheHill),
    {
        KingOfTheHill::new()
    }
}

} // verus!
