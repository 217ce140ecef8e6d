//! Horde: a horde of pawns against the pieces of standard chess.

use vstd::prelude::*;
use crate::bitboard::{Bitboard, BACKRANKS};
use crate::board::Board;
use crate::color::Color;
use crate::material::Material;
use crate::movegen;
use crate::laws::{lemma_legal_moves, lemma_play_well_formed, lemma_setup_well_formed, well_formed};
use crate::movelist::MoveList;
use crate::position::{
    all_checks, do_move, filter_san_candidates, is_irreversible_by, no_pockets, retain_captures,
    retain_castling, retain_en_passant, retain_promotions, validate, FromSetup, Outcome, Parts,
    Position, PositionError, PositionErrorKind, State,
};
use crate::rules::{legal_moves_spec, relevant_ep, setup_errors, setup_of, setup_state};
use crate::setup::{Castles, Setup, SetupView};
use crate::square::{Rank, Square};
use crate::types::{CastlingMode, CastlingSide, Move, RemainingChecks, Role, Variant};

verus! {

/// A Horde position.
#[derive(Clone, Copy, Debug)]
pub struct Horde {
    board: Board,
    turn: Color,
    castles: Castles,
    ep_square: Option<Square>,
    halfmoves: u32,
    fullmoves: u32,
}

impl Horde {
    #[verifier::type_invariant]
    spec fn inv(&self) -> bool {
        well_formed(self.held())
    }

    /// What the position holds.
    pub closed spec fn held(&self) -> State {
        State {
            variant: Variant::Horde,
            board: self.board@,
            turn: self.turn,
            castles: self.castles,
            ep_square: self.ep_square,
            halfmoves: self.halfmoves,
            fullmoves: self.fullmoves,
            pockets: no_pockets(),
            remaining_checks: all_checks(),
        }
    }

    /// The starting position of Horde: the white pawns against the black
    /// pieces, which alone may castle.
    pub fn new() -> (r: Horde)
        ensures
            r.held() == crate::reachable::initial(Variant::Horde),
    {
        let mut castles = Castles::new();
        castles.discard_side(Color::White);
        proof {
            crate::laws::lemma_standard_castles();
        }
        Horde {
            board: Board::horde(),
            turn: Color::White,
            castles,
            ep_square: None,
            halfmoves: 0,
            fullmoves: 1,
        }
    }

    fn parts(&self) -> (r: Parts<'_>)
        ensures
            r.of(self.held()),
    {
        Parts {
            variant: Variant::Horde,
            board: &self.board,
            turn: self.turn,
            castles: &self.castles,
            ep_square: self.ep_square,
        }
    }

    /// Collects the legal moves.
    fn gen_legal(&self, moves: &mut MoveList)
        ensures
            final(moves)@ == legal_moves_spec(self.held()),
    {
        self.parts().standard_moves(moves, Ghost(self.held()));
    }

    /// The en passant square, if there is a legal en passant capture.
    fn relevant_ep_square(&self) -> (r: Option<Square>)
        ensures
            r == relevant_ep(self.held()),
    {
        match self.ep_square {
            Some(e) => {
                let mut moves = MoveList::new();
                self.gen_legal(&mut moves);
                retain_en_passant(&mut moves);
                if moves.is_empty() {
                    None
                } else {
                    Some(e)
                }
            },
            None => None,
        }
    }
}

impl Setup for Horde {
    open spec fn setup(&self) -> SetupView {
        setup_of(self.held())
    }

    fn board(&self) -> (r: &Board) {
        &self.board
    }

    fn pockets(&self) -> (r: Option<Material>) {
        None
    }

    fn turn(&self) -> (r: Color) {
        self.turn
    }

    fn castling_rights(&self) -> (r: Bitboard) {
        self.castles.castling_rights()
    }

    fn ep_square(&self) -> (r: Option<Square>) {
        self.relevant_ep_square()
    }

    fn remaining_checks(&self) -> (r: Option<RemainingChecks>) {
        None
    }

    fn halfmoves(&self) -> (r: u32) {
        self.halfmoves
    }

    fn fullmoves(&self) -> (r: u32) {
        self.fullmoves
    }
}

impl FromSetup for Horde {
    fn from_setup_with_mode<S: Setup>(setup: &S, mode: Option<CastlingMode>) -> (r: Result<
        Horde,
        PositionError<Horde>,
    >) {
        let (castles, errors) = match Castles::from_setup_with_mode(setup, mode) {
            Ok(castles) => (castles, PositionErrorKind::empty()),
            Err(castles) => {
                let mut bad = PositionErrorKind::empty();
                bad.bad_castling_rights = true;
                (castles, bad)
            },
        };
        let fullmoves = setup.fullmoves();
        let wf_board = setup.board().occupied();
        proof {
            lemma_setup_well_formed(Variant::Horde, setup.setup(), mode);
        }
        let pos = Horde {
            board: *setup.board(),
            turn: setup.turn(),
            castles,
            ep_square: setup.ep_square(),
            halfmoves: setup.halfmoves(),
            fullmoves: if fullmoves == 0 {
                1
            } else {
                fullmoves
            },
        };
        assert(pos.held() == setup_state(Variant::Horde, setup.setup(), mode));
        let common = errors.union(validate(&pos));
        let board = &pos.board;
        let white_rank = if board.kings().0 & board.white().0 == 0 {
            Bitboard::rank(Rank::First).0
        } else {
            0
        };
        let black_rank = if board.kings().0 & board.black().0 == 0 {
            Bitboard::rank(Rank::Eighth).0
        } else {
            0
        };
        let errors = PositionErrorKind {
            pawns_on_backrank: board.pawns().0 & board.white().0 & BACKRANKS & !white_rank != 0
                || board.pawns().0 & board.black().0 & BACKRANKS & !black_rank != 0,
            missing_king: board.kings().0 & !board.promoted().0 == 0,
            variant: board.kings().0 & board.white().0 != 0 && board.kings().0 & board.black().0
                != 0,
            ..common
        };
        assert(errors == setup_errors(Variant::Horde, setup.setup(), mode));
        PositionError { pos: Some(pos), errors }.strict()
    }
}

impl Position for Horde {
    open spec fn state(&self) -> State {
        self.held()
    }

    open spec fn variant() -> Variant {
        Variant::Horde
    }

    proof fn lemma_setup(&self) {
    }

    fn play_unchecked(&mut self, m: &Move) {
        let ghost before = self.held();
        let mut board = self.board;
        let mut turn = self.turn;
        let mut castles = self.castles;
        let mut ep_square = self.ep_square;
        let mut halfmoves = self.halfmoves;
        let mut fullmoves = self.fullmoves;
        proof {
            use_type_invariant(&*self);
            lemma_play_well_formed(before, *m);
        }
        do_move(
            &mut board,
            &mut turn,
            &mut castles,
            &mut ep_square,
            &mut halfmoves,
            &mut fullmoves,
            m,
        );
        *self = Horde { board, turn, castles, ep_square, halfmoves, fullmoves };
    }

    fn legal_moves(&self, moves: &mut MoveList) {
        proof {
            use_type_invariant(self);
            lemma_legal_moves(self.held());
        }
        self.gen_legal(moves);
    }

    fn san_candidates(&self, role: Role, to: Square, moves: &mut MoveList) {
        self.gen_legal(moves);
        filter_san_candidates(role, to, moves);
    }

    fn castling_moves(&self, side: CastlingSide, moves: &mut MoveList) {
        self.gen_legal(moves);
        retain_castling(side, moves);
    }

    fn en_passant_moves(&self, moves: &mut MoveList) {
        self.gen_legal(moves);
        retain_en_passant(moves);
    }

    fn capture_moves(&self, moves: &mut MoveList) {
        self.gen_legal(moves);
        retain_captures(moves);
    }

    fn promotion_moves(&self, moves: &mut MoveList) {
        self.gen_legal(moves);
        retain_promotions(moves);
    }

    fn is_irreversible(&self, m: &Move) -> (r: bool) {
        is_irreversible_by(
            self.castles.castling_rights(),
            self.castles.has_side(self.turn),
            self.relevant_ep_square().is_some(),
            m,
        )
    }

    fn king_attackers(&self, square: Square, attacker: Color, occupied: Bitboard) -> (r: Bitboard) {
        movegen::king_attackers(Variant::Horde, &self.board, square, attacker, occupied)
    }

    fn maybe_ep_square(&self) -> (r: Option<Square>) {
        self.ep_square
    }

    fn castles(&self) -> (r: &Castles) {
        proof {
            use_type_invariant(self);
        }
        &self.castles
    }

    fn is_variant_end(&self) -> (r: bool) {
        self.board.white().is_empty() || self.board.black().is_empty()
    }

    fn has_insufficient_material(&self, color: Color) -> (r: bool) {
        // The side with the king can always win by capturing the horde,
        // and it is not yet detected when the horde can not mate.
        false
    }

    fn variant_outcome(&self) -> (r: Option<Outcome>) {
        if self.board.occupied().is_empty() {
            Some(Outcome::Draw)
        } else if self.board.white().is_empty() {
            Some(Outcome::Decisive { winner: Color::Black })
        } else if self.board.black().is_empty() {
            Some(Outcome::Decisive { winner: Color::White })
        } else {
            None
        }
    }
}

impl Default for Horde {
    fn default() -> (r: Horde)
        ensures
            r.held() == crate::reachable::initial(Variant::Horde),
    {
        Horde::new()
    }
}

} // verus!
