//! Antichess: captures are compulsory, and the side that loses all its
//! pieces wins.

use vstd::prelude::*;
use crate::bitboard::{DARK_SQUARES, LIGHT_SQUARES, Bitboard};
use crate::board::Board;
use crate::color::Color;
use crate::material::Material;
use crate::movegen;
use crate::movegen::{en_passant, non_king};
use crate::laws::{lemma_legal_moves, lemma_play_well_formed, lemma_setup_well_formed, well_formed};
use crate::movelist::MoveList;
use crate::position::{
    all_checks, do_move, filter_san_candidates, is_irreversible_by, no_pockets, retain_castling,
    retain_promotions, validate, FromSetup, Outcome, Position, PositionError, PositionErrorKind,
    State,
};
use crate::rules::{
    antichess_captures, antichess_gen, antichess_moves, king_promotion_fn, queen_promotion_fn,
    relevant_ep, setup_of, with_king_promotions,
};
use crate::setup::{Castles, Setup, SetupView};
use crate::square::Square;
use crate::types::{CastlingMode, CastlingSide, Move, RemainingChecks, Role, Variant};

verus! {

/// Appends a promotion to a king for each promotion to a queen in the
/// list.
pub fn add_king_promotions(moves: &mut MoveList)
    ensures
        final(moves)@ == with_king_promotions(old(moves)@),
{
    let mut king_promotions = MoveList::new();
    let n = moves.len();
    let mut i: usize = 0;
    assert(moves@.subrange(0, 0) =~= Seq::<Move>::empty());
    while i < n
        invariant
            moves@ == old(moves)@,
            n == moves@.len(),
            i <= n,
            king_promotions@ == moves@.subrange(0, i as int).filter(
                queen_promotion_fn(),
            ).map_values(king_promotion_fn()),
        decreases n - i,
    {
        let ghost prefix = moves@.subrange(0, i as int);
        let ghost before = king_promotions@;
        if let Some(m) = moves.get(i) {
            proof {
                prefix.lemma_filter_push(m, queen_promotion_fn());
                assert(prefix.push(m) =~= moves@.subrange(0, i + 1));
            }
            if let Move::Normal { role, from, capture, to, promotion: Some(Role::Queen) } = m {
                king_promotions.push(
                    Move::Normal { role, from, capture, to, promotion: Some(Role::King) },
                );
                assert(king_promotions@ =~= prefix.push(m).filter(
                    queen_promotion_fn(),
                ).map_values(king_promotion_fn()));
            }
        }
        i = i + 1;
    }
    assert(moves@.subrange(0, i as int) =~= moves@);
    moves.extend(&king_promotions);
}

/// An Antichess position. Antichess is also known as Giveaway, but players
/// start without castling rights.
#[derive(Clone, Copy, Debug)]
pub struct Antichess {
    board: Board,
    turn: Color,
    castles: Castles,
    ep_square: Option<Square>,
    halfmoves: u32,
    fullmoves: u32,
}

impl Antichess {
    #[verifier::type_invariant]
    spec fn inv(&self) -> bool {
        well_formed(self.held())
    }

    /// What the position holds.
    pub closed spec fn held(&self) -> State {
        State {
            variant: Variant::Antichess,
            board: self.board@,
            turn: self.turn,
            castles: self.castles,
            ep_square: self.ep_square,
            halfmoves: self.halfmoves,
            fullmoves: self.fullmoves,
            pockets: no_pockets(),
            remaining_checks: all_checks(),
        }
    }

    /// The starting position of Antichess.
    pub fn new() -> (r: Antichess)
        ensures
            r.held() == crate::reachable::initial(Variant::Antichess),
    {
        Antichess {
            board: Board::new(),
            turn: Color::White,
            castles: Castles::empty(CastlingMode::Standard),
            ep_square: None,
            halfmoves: 0,
            fullmoves: 1,
        }
    }

    /// Collects the moves to the squares of `target`.
    fn gen_to(&self, target: Bitboard, ep: bool, moves: &mut MoveList)
        ensures
            final(moves)@ == antichess_gen(self.held(), target.0, ep),
    {
        moves.clear();
        if ep {
            movegen::gen_en_passant(&self.board, self.turn, self.ep_square, moves);
        }
        movegen::gen_non_king(&self.board, self.turn, target, moves);
        assert(moves@ =~= (if ep {
            en_passant(self.held().board, self.turn, self.ep_square)
        } else {
            Seq::empty()
        }) + non_king(self.held().board, self.turn, target.0));
        add_king_promotions(moves);
        movegen::gen_piece_moves(&self.board, self.turn.king(), target, moves);
    }

    /// Collects the captures.
    fn gen_captures(&self, moves: &mut MoveList)
        ensures
            final(moves)@ == antichess_captures(self.held()),
    {
        self.gen_to(self.board.by_color(self.turn.other()), true, moves);
    }

    /// Collects the legal moves.
    fn gen_legal(&self, moves: &mut MoveList)
        ensures
            final(moves)@ == antichess_moves(self.held()),
    {
        self.gen_captures(moves);
        if moves.is_empty() {
            // No compulsory captures. Generate everything else.
            self.gen_to(Bitboard(!self.board.occupied().0), false, moves);
        }
    }

    /// Collects the en passant captures.
    fn gen_en_passant(&self, moves: &mut MoveList)
        ensures
            final(moves)@ == en_passant(self.held().board, self.held().turn, self.held().ep_square),
    {
        moves.clear();
        movegen::gen_en_passant(&self.board, self.turn, self.ep_square, moves);
        assert(moves@ =~= en_passant(self.held().board, self.turn, self.ep_square));
    }

    /// The en passant square, if there is a legal en passant capture.
    fn relevant_ep_square(&self) -> (r: Option<Square>)
        ensures
            r == relevant_ep(self.held()),
    {
        match self.ep_square {
            Some(e) => {
                let mut moves = MoveList::new();
                self.gen_en_passant(&mut moves);
                if moves.is_empty() {
                    None
                } else {
                    Some(e)
                }
            },
            None => None,
        }
    }
}

impl Setup for Antichess {
    open spec fn setup(&self) -> SetupView {
        setup_of(self.held())
    }

    fn board(&self) -> (r: &Board) {
        &self.board
    }

    fn pockets(&self) -> (r: Option<Material>) {
        None
    }

    fn turn(&self) -> (r: Color) {
        self.turn
    }

    fn castling_rights(&self) -> (r: Bitboard) {
        Bitboard(0)
    }

    fn ep_square(&self) -> (r: Option<Square>) {
        self.relevant_ep_square()
    }

    fn remaining_checks(&self) -> (r: Option<RemainingChecks>) {
        None
    }

    fn halfmoves(&self) -> (r: u32) {
        self.halfmoves
    }

    fn fullmoves(&self) -> (r: u32) {
        self.fullmoves
    }
}

impl FromSetup for Antichess {
    fn from_setup_with_mode<S: Setup>(setup: &S, mode: Option<CastlingMode>) -> (r: Result<
        Antichess,
        PositionError<Antichess>,
    >) {
        let fullmoves = setup.fullmoves();
        let wf_board = setup.board().occupied();
        proof {
            lemma_setup_well_formed(Variant::Antichess, setup.setup(), mode);
        }
        let pos = Antichess {
            board: *setup.board(),
            turn: setup.turn(),
            castles: Castles::empty(
                match mode {
                    Some(m) => m,
                    None => CastlingMode::Standard,
                },
            ),
            ep_square: setup.ep_square(),
            halfmoves: setup.halfmoves(),
            fullmoves: if fullmoves == 0 {
                1
            } else {
                fullmoves
            },
        };
        let mut errors = PositionErrorKind::empty();
        errors.bad_castling_rights = setup.castling_rights().any();
        let mut errors = validate(&pos).union(errors);
        errors.missing_king = false;
        errors.too_many_kings = false;
        errors.opposite_check = false;
        errors.impossible_check = false;
        PositionError { pos: Some(pos), errors }.strict()
    }
}

impl Position for Antichess {
    open spec fn state(&self) -> State {
        self.held()
    }

    open spec fn variant() -> Variant {
        Variant::Antichess
    }

    proof fn lemma_setup(&self) {
    }

    fn play_unchecked(&mut self, m: &Move) {
        let ghost before = self.held();
        let mut board = self.board;
        let mut turn = self.turn;
        let mut castles = self.castles;
        let mut ep_square = self.ep_square;
        let mut halfmoves = self.halfmoves;
        let mut fullmoves = self.fullmoves;
        proof {
            use_type_invariant(&*self);
            lemma_play_well_formed(before, *m);
        }
        do_move(
            &mut board,
            &mut turn,
            &mut castles,
            &mut ep_square,
            &mut halfmoves,
            &mut fullmoves,
            m,
        );
        *self = Antichess { board, turn, castles, ep_square, halfmoves, fullmoves };
    }

    fn maybe_ep_square(&self) -> (r: Option<Square>) {
        self.ep_square
    }

    fn castles(&self) -> (r: &Castles) {
        proof {
            use_type_invariant(self);
        }
        &self.castles
    }

    fn en_passant_moves(&self, moves: &mut MoveList) {
        self.gen_en_passant(moves);
    }

    fn capture_moves(&self, moves: &mut MoveList) {
        self.gen_captures(moves);
    }

    fn legal_moves(&self, moves: &mut MoveList) {
        proof {
            use_type_invariant(self);
            lemma_legal_moves(self.held());
        }
        self.gen_legal(moves);
    }

    fn san_candidates(&self, role: Role, to: Square, moves: &mut MoveList) {
        self.gen_legal(moves);
        filter_san_candidates(role, to, moves);
    }

    fn castling_moves(&self, side: CastlingSide, moves: &mut MoveList) {
        self.gen_legal(moves);
        retain_castling(side, moves);
    }

    fn promotion_moves(&self, moves: &mut MoveList) {
        self.gen_legal(moves);
        retain_promotions(moves);
    }

    fn is_irreversible(&self, m: &Move) -> (r: bool) {
        is_irreversible_by(
            self.castling_rights(),
            self.castles.has_side(self.turn),
            self.relevant_ep_square().is_some(),
            m,
        )
    }

    fn king_attackers(&self, square: Square, attacker: Color, occupied: Bitboard) -> (r: Bitboard) {
        Bitboard(0)
    }

    fn is_variant_end(&self) -> (r: bool) {
        self.board.white().is_empty() || self.board.black().is_empty()
    }

    fn has_insufficient_material(&self, color: Color) -> (r: bool) {
        // In a position with only bishops, check if all our bishops can be
        // captured.
        if self.board.occupied().0 == self.board.bishops().0 {
            let ours = self.board.by_color(color);
            let theirs = self.board.by_color(color.other());
            (ours.0 & LIGHT_SQUARES != 0 && theirs.0 & LIGHT_SQUARES == 0) || (ours.0
                & DARK_SQUARES != 0 && theirs.0 & DARK_SQUARES == 0)
        } else {
            false
        }
    }

    fn variant_outcome(&self) -> (r: Option<Outcome>) {
        let stalemate = if self.board.white().is_empty() || self.board.black().is_empty() {
            false
        } else {
            let mut legals = MoveList::new();
            self.gen_legal(&mut legals);
            legals.is_empty()
        };
        if self.board.by_color(self.turn).is_empty() || stalemate {
            Some(Outcome::Decisive { winner: self.turn })
        } else {
            None
        }
    }
}

impl Default for Antichess {
    fn default() -> (r: Antichess)
        ensures
            r.held() == crate::reachable::initial(Variant::Antichess),
    {
        Antichess::new()
    }
}

} // verus!
