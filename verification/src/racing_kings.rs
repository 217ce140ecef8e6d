//! Racing Kings: the king that reaches the eighth rank wins.

use vstd::prelude::*;
use crate::attacks;
use crate::bitboard::{
    drop_lsb, has_bit, lemma_drop_lsb_bits, lemma_lsb, lemma_no_bits, lsb, Bitboard,
};
use crate::board::Board;
use crate::color::Color;
use crate::material::Material;
use crate::movegen;
use crate::movegen::{king_attackers_spec, non_king};
use crate::laws::{lemma_legal_moves, lemma_play_well_formed, lemma_setup_well_formed, well_formed};
use crate::movelist::MoveList;
use crate::position::{
    all_checks, checkers, do_move, filter_san_candidates, is_irreversible_by, no_pockets,
    retain_captures, retain_castling, retain_en_passant, retain_promotions, safe_king_moves,
    validate, FromSetup, Outcome, Parts, Position, PositionError, PositionErrorKind, State,
};
use crate::rules::{
    goal_steps, in_goal, no_check_fn, racing_end, racing_moves, racing_play, setup_of,
};
use crate::setup::{Castles, Setup, SetupView};
use crate::square::{Rank, Square};
use crate::types::{CastlingMode, CastlingSide, Move, RemainingChecks, Role, Variant};

verus! {

/// A Racing Kings position.
#[derive(Clone, Copy, Debug)]
pub struct RacingKings {
    board: Board,
    turn: Color,
    castles: Castles,
    halfmoves: u32,
    fullmoves: u32,
}

impl RacingKings {
    #[verifier::type_invariant]
    spec fn inv(&self) -> bool {
        well_formed(self.held())
    }

    /// What the position holds.
    pub closed spec fn held(&self) -> State {
        State {
            variant: Variant::RacingKings,
            board: self.board@,
            turn: self.turn,
            castles: self.castles,
            ep_square: None,
            halfmoves: self.halfmoves,
            fullmoves: self.fullmoves,
            pockets: no_pockets(),
            remaining_checks: all_checks(),
        }
    }

    /// The starting position of Racing Kings.
    pub fn new() -> (r: RacingKings)
        ensures
            r.held() == crate::reachable::initial(Variant::RacingKings),
    {
        RacingKings {
            board: Board::racing_kings(),
            turn: Color::White,
            castles: Castles::empty(CastlingMode::Standard),
            halfmoves: 0,
            fullmoves: 1,
        }
    }

    fn parts(&self) -> (r: Parts<'_>)
        ensures
            r.of(self.held()),
    {
        Parts {
            variant: Variant::RacingKings,
            board: &self.board,
            turn: self.turn,
            castles: &self.castles,
            ep_square: None,
        }
    }

    /// Makes a move.
    fn advance(&mut self, m: &Move)
        ensures
            final(self).held() == racing_play(old(self).held(), *m),
    {
        let ghost before = self.held();
        let mut board = self.board;
        let mut turn = self.turn;
        let mut castles = self.castles;
        let mut ep_square: Option<Square> = None;
        let mut halfmoves = self.halfmoves;
        let mut fullmoves = self.fullmoves;
        proof {
            use_type_invariant(&*self);
            lemma_play_well_formed(before, *m);
        }
        do_move(
            &mut board,
            &mut turn,
            &mut castles,
            &mut ep_square,
            &mut halfmoves,
            &mut fullmoves,
            m,
        );
        *self = RacingKings { board, turn, castles, halfmoves, fullmoves };
    }

    /// Tells whether the race is over.
    fn race_over(&self) -> (r: bool)
        ensures
            r == racing_end(self.held()),
    {
        let goal = Bitboard::rank(Rank::Eighth);
        let reached = Bitboard(self.board.kings().0 & goal.0);
        if reached.is_empty() {
            return false;
        }
        if self.turn.is_white() || reached.0 & self.board.black().0 != 0 {
            return true;
        }
        // White has reached the backrank. Check if black can catch up.
        let black_king = match self.board.king_of(Color::Black) {
            Some(k) => k,
            None => {
                return true;
            },
        };
        let occupied = self.board.occupied();
        let steps = Bitboard(attacks::king_attacks(black_king).0 & goal.0 & !self.board.black().0);
        let mut rest = steps;
        while rest.0 != 0
            invariant
                in_goal(self.held()) != 0,
                self.held().turn != Color::White,
                in_goal(self.held()) & self.held().board.black == 0,
                self.held().board.king_of(Color::Black) == Some(black_king),
                steps.0 == goal_steps(self.held(), black_king),
                occupied.0 == self.held().board.occupied(),
                forall|i: int| has_bit(rest.0, i) ==> has_bit(steps.0, i),
                forall|i: int|
                    has_bit(steps.0, i) && !has_bit(rest.0, i) ==> #[trigger] king_attackers_spec(
                        Variant::RacingKings,
                        self.held().board,
                        i,
                        Color::White,
                        occupied.0,
                    ) != 0,
            decreases rest.0,
        {
            proof {
                lemma_lsb(rest.0);
                assert forall|i: int|
                    has_bit(drop_lsb(rest.0), i) <==> has_bit(rest.0, i) && i != lsb(rest.0) by {
                    lemma_drop_lsb_bits(rest.0, i);
                }
            }
            if let Some(target) = rest.pop_front() {
                proof {
                    broadcast use Square::lemma_idx_at;

                }
                if movegen::king_attackers(
                    Variant::RacingKings,
                    &self.board,
                    target,
                    Color::White,
                    occupied,
                ).is_empty() {
                    assert(has_bit(steps.0, target.idx()));
                    assert(king_attackers_spec(
                        self.held().variant,
                        self.held().board,
                        target.idx(),
                        Color::White,
                        self.held().board.occupied(),
                    ) == 0);
                    return false;
                }
            }
        }
        proof {
            assert forall|i: int| !has_bit(0, i) by {
                lemma_no_bits(i);
            }
        }
        true
    }

    /// Tells whether a move leaves the other side without check.
    fn gives_no_check(&self, m: &Move) -> (r: bool)
        ensures
            r == (checkers(racing_play(self.held(), *m)) == 0),
    {
        let mut after = *self;
        after.advance(m);
        after.parts().checkers(Ghost(after.held())).is_empty()
    }

    /// Collects the legal moves.
    fn gen_legal(&self, moves: &mut MoveList)
        ensures
            final(moves)@ == racing_moves(self.held()),
    {
        moves.clear();
        if self.race_over() {
            return ;
        }
        // Generate all legal moves (no castling, no ep).
        let target = Bitboard(!self.board.by_color(self.turn).0);
        movegen::gen_non_king(&self.board, self.turn, target, moves);
        self.parts().gen_safe_king_moves(target, moves, Ghost(self.held()));
        assert(moves@ =~= non_king(self.held().board, self.turn, target.0) + safe_king_moves(
            self.held(),
            target.0,
        ));
        self.parts().pin_filter(false, moves, Ghost(self.held()));
        // Do not allow giving check. This could be implemented more
        // efficiently.
        let f = |m: &Move| -> (r: bool)
            ensures
                r == (checkers(racing_play(self.held(), *m)) == 0),
            { self.gives_no_check(m) };
        moves.retain_by(f, Ghost(no_check_fn(self.held())));
    }
}

impl Setup for RacingKings {
    open spec fn setup(&self) -> SetupView {
        setup_of(self.held())
    }

    fn board(&self) -> (r: &Board) {
        &self.board
    }

    fn pockets(&self) -> (r: Option<Material>) {
        None
    }

    fn turn(&self) -> (r: Color) {
        self.turn
    }

    fn castling_rights(&self) -> (r: Bitboard) {
        Bitboard(0)
    }

    fn ep_square(&self) -> (r: Option<Square>) {
        None
    }

    fn remaining_checks(&self) -> (r: Option<RemainingChecks>) {
        None
    }

    fn halfmoves(&self) -> (r: u32) {
        self.halfmoves
    }

    fn fullmoves(&self) -> (r: u32) {
        self.fullmoves
    }
}

impl FromSetup for RacingKings {
    fn from_setup_with_mode<S: Setup>(setup: &S, mode: Option<CastlingMode>) -> (r: Result<
        RacingKings,
        PositionError<RacingKings>,
    >) {
        let mut errors = PositionErrorKind::empty();
        errors.bad_castling_rights = setup.castling_rights().any();
        let board = *setup.board();
        errors.invalid_ep_square = setup.ep_square().is_some();
        let fullmoves = setup.fullmoves();
        let wf_board = setup.board().occupied();
        proof {
            lemma_setup_well_formed(Variant::RacingKings, setup.setup(), mode);
        }
        let pos = RacingKings {
            board,
            turn: setup.turn(),
            castles: Castles::empty(
                match mode {
                    Some(m) => m,
                    None => CastlingMode::Standard,
                },
            ),
            halfmoves: setup.halfmoves(),
            fullmoves: if fullmoves == 0 {
                1
            } else {
                fullmoves
            },
        };
        errors.impossible_check = pos.is_check();
        let goal = Bitboard::rank(Rank::Eighth);
        errors.variant = pos.board.pawns().0 != 0 || (pos.turn.is_black() && pos.board.white().0
            & pos.board.kings().0 & goal.0 != 0 && pos.board.black().0 & pos.board.kings().0
            & goal.0 != 0);
        let errors = validate(&pos).union(errors);
        PositionError { pos: Some(pos), errors }.strict()
    }
}

impl Position for RacingKings {
    open spec fn state(&self) -> State {
        self.held()
    }

    open spec fn variant() -> Variant {
        Variant::RacingKings
    }

    proof fn lemma_setup(&self) {
    }

    fn play_unchecked(&mut self, m: &Move) {
        self.advance(m);
    }

    fn legal_moves(&self, moves: &mut MoveList) {
        proof {
            use_type_invariant(self);
            lemma_legal_moves(self.held());
        }
        self.gen_legal(moves);
    }

    fn san_candidates(&self, role: Role, to: Square, moves: &mut MoveList) {
        self.gen_legal(moves);
        filter_san_candidates(role, to, moves);
    }

    fn castling_moves(&self, side: CastlingSide, moves: &mut MoveList) {
        self.gen_legal(moves);
        retain_castling(side, moves);
    }

    fn en_passant_moves(&self, moves: &mut MoveList) {
        self.gen_legal(moves);
        retain_en_passant(moves);
    }

    fn capture_moves(&self, moves: &mut MoveList) {
        self.gen_legal(moves);
        retain_captures(moves);
    }

    fn promotion_moves(&self, moves: &mut MoveList) {
        self.gen_legal(moves);
        retain_promotions(moves);
    }

    fn is_irreversible(&self, m: &Move) -> (r: bool) {
        is_irreversible_by(Bitboard(0), self.castles.has_side(self.turn), false, m)
    }

    fn king_attackers(&self, square: Square, attacker: Color, occupied: Bitboard) -> (r: Bitboard) {
        movegen::king_attackers(Variant::RacingKings, &self.board, square, attacker, occupied)
    }

    fn maybe_ep_square(&self) -> (r: Option<Square>) {
        None
    }

    fn castles(&self) -> (r: &Castles) {
        proof {
            use_type_invariant(self);
        }
        &self.castles
    }

    fn has_insufficient_material(&self, color: Color) -> (r: bool) {
        // Even a lone king can win the race.
        false
    }

    fn is_variant_end(&self) -> (r: bool) {
        self.race_over()
    }

    fn variant_outcome(&self) -> (r: Option<Outcome>) {
        if self.race_over() {
            let reached = Bitboard(self.board.kings().0 & Bitboard::rank(Rank::Eighth).0);
            if reached.0 & self.board.white().0 != 0 && reached.0 & self.board.black().0 != 0 {
                Some(Outcome::Draw)
            } else if reached.0 & self.board.white().0 != 0 {
                Some(Outcome::Decisive { winner: Color::White })
            } else {
                Some(Outcome::Decisive { winner: Color::Black })
            }
        } else {
            None
        }
    }
}

impl Default for RacingKings {
    fn default() -> (r: RacingKings)
        ensures
            r.held() == crate::reachable::initial(Variant::RacingKings),
    {
        RacingKings::new()
    }
}

} // verus!
