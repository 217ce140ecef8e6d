//! Three-Check: the side that gives three checks wins.

use vstd::prelude::*;
use crate::bitboard::Bitboard;
use crate::board::Board;
use crate::color::Color;
use crate::material::Material;
use crate::laws::lemma_legal_moves;
use crate::movelist::MoveList;
use crate::position::{
    retain_captures, retain_promotions, Chess, FromSetup, Outcome, Position, PositionError, State,
};
use crate::rules::{checks_end, legal_moves_spec, setup_of};
use crate::setup::{Castles, Setup, SetupView};
use crate::square::Square;
use crate::types::{CastlingMode, CastlingSide, Move, RemainingChecks, Role, Variant};

verus! {

broadcast use Chess::lemma_held;

/// A Three-Check position.
#[derive(Clone, Copy, Debug)]
pub struct ThreeCheck {
    chess: Chess,
    remaining_checks: RemainingChecks,
}

impl ThreeCheck {
    /// What the position holds.
    pub closed spec fn held(&self) -> State {
        State {
            variant: Variant::ThreeCheck,
            remaining_checks: self.remaining_checks,
            ..self.chess.held()
        }
    }

    /// The starting position of Three-Check.
    pub fn new() -> (r: ThreeCheck)
        ensures
            r.held() == crate::reachable::initial(Variant::ThreeCheck),
    {
        ThreeCheck { chess: Chess::new(), remaining_checks: RemainingChecks::new() }
    }

    /// Tells whether one side has given its three checks.
    fn checks_given(&self) -> (r: bool)
        ensures
            r == checks_end(self.held()),
    {
        self.remaining_checks.white == 0 || self.remaining_checks.black == 0
    }

    /// Collects the legal moves.
    fn gen_legal(&self, moves: &mut MoveList)
        ensures
            final(moves)@ == legal_moves_spec(self.held()),
    {
        if self.checks_given() {
            moves.clear();
        } else {
            self.chess.legal_moves(moves);
        }
    }
}

impl Setup for ThreeCheck {
    open spec fn setup(&self) -> SetupView {
        setup_of(self.held())
    }

    fn board(&self) -> (r: &Board) {
        self.chess.board()
    }

    fn pockets(&self) -> (r: Option<Material>) {
        None
    }

    fn turn(&self) -> (r: Color) {
        self.chess.turn()
    }

    fn castling_rights(&self) -> (r: Bitboard) {
        self.chess.castling_rights()
    }

    fn ep_square(&self) -> (r: Option<Square>) {
        self.chess.ep_square()
    }

    fn remaining_checks(&self) -> (r: Option<RemainingChecks>) {
        Some(self.remaining_checks)
    }

    fn halfmoves(&self) -> (r: u32) {
        self.chess.halfmoves()
    }

    fn fullmoves(&self) -> (r: u32) {
        self.chess.fullmoves()
    }
}

impl FromSetup for ThreeCheck {
    fn from_setup_with_mode<S: Setup>(setup: &S, mode: Option<CastlingMode>) -> (r: Result<
        ThreeCheck,
        PositionError<ThreeCheck>,
    >) {
        let (chess, mut errors) = Chess::from_setup_with_mode_unchecked(setup, mode);
        let remaining_checks = match setup.remaining_checks() {
            Some(checks) => checks,
            None => RemainingChecks::new(),
        };
        errors.variant = remaining_checks.white == 0 && remaining_checks.black == 0;
        PositionError { pos: Some(ThreeCheck { chess, remaining_checks }), errors }.strict()
    }
}

impl Position for ThreeCheck {
    open spec fn state(&self) -> State {
        self.held()
    }

    open spec fn variant() -> Variant {
        Variant::ThreeCheck
    }

    proof fn lemma_setup(&self) {
    }

    fn play_unchecked(&mut self, m: &Move) {
        let turn = self.chess.turn();
        self.chess.play_unchecked(m);
        if self.chess.is_check() {
            self.remaining_checks.decrement(turn);
        }
    }

    fn maybe_ep_square(&self) -> (r: Option<Square>) {
        self.chess.maybe_ep_square()
    }

    fn castles(&self) -> (r: &Castles) {
        self.chess.castles()
    }

    fn legal_moves(&self, moves: &mut MoveList) {
        let _ = self.chess.castles();
        proof {
            lemma_legal_moves(self.held());
        }
        self.gen_legal(moves);
    }

    fn castling_moves(&self, side: CastlingSide, moves: &mut MoveList) {
        if self.checks_given() {
            moves.clear();
        } else {
            self.chess.castling_moves(side, moves);
        }
    }

    fn en_passant_moves(&self, moves: &mut MoveList) {
        if self.checks_given() {
            moves.clear();
        } else {
            self.chess.en_passant_moves(moves);
        }
    }

    fn san_candidates(&self, role: Role, to: Square, moves: &mut MoveList) {
        if self.checks_given() {
            moves.clear();
        } else {
            self.chess.san_candidates(role, to, moves);
        }
    }

    fn capture_moves(&self, moves: &mut MoveList) {
        self.gen_legal(moves);
        retain_captures(moves);
    }

    fn promotion_moves(&self, moves: &mut MoveList) {
        self.gen_legal(moves);
        retain_promotions(moves);
    }

    fn has_insufficient_material(&self, color: Color) -> (r: bool) {
        // Any remaining piece can give check.
        self.chess.board().by_color(color).0 & !self.chess.board().kings().0 == 0
    }

    fn is_irreversible(&self, m: &Move) -> (r: bool) {
        self.chess.is_irreversible(m) || self.chess.gives_check(m)
    }

    fn king_attackers(&self, square: Square, attacker: Color, occupied: Bitboard) -> (r: Bitboard) {
        self.chess.king_attackers(square, attacker, occupied)
    }

    fn is_variant_end(&self) -> (r: bool) {
        self.checks_given()
    }

    fn variant_outcome(&self) -> (r: Option<Outcome>) {
        if self.remaining_checks.white == 0 && self.remaining_checks.black == 0 {
            Some(Outcome::Draw)
        } else if self.remaining_checks.white == 0 {
            Some(Outcome::Decisive { winner: Color::White })
        } else if self.remaining_checks.black == 0 {
            Some(Outcome::Decisive { winner: Color::Black })
        } else {
            None
        }
    }
}

impl Default for ThreeCheck {
    fn default() -> (r: ThreeCheck)
        ensures
            r.held() == crate::reachable::initial(Variant::ThreeCheck),
    {
        ThreeCheck::new()
    }
}

} // verus!
