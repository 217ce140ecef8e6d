//! Crazyhouse: captured pieces change sides and may be dropped.

use vstd::prelude::*;
use crate::attacks;
use crate::bitboard::{lemma_lsb, BACKRANKS, Bitboard};
use crate::board::Board;
use crate::color::Color;
use crate::material::{Material, MaterialSide};
use crate::movegen;
use crate::movegen::for_each;
use crate::laws::lemma_legal_moves;
use crate::movelist::MoveList;
use crate::position::{
    checkers, retain_captures, retain_promotions, Chess, FromSetup, Outcome, Position,
    PositionError, State,
};
use crate::rules::{
    drop_candidate, drops, each_drop_square, each_pawn_drop, legal_moves_spec, piece_drop,
    pocket_after, put_squares, setup_of,
};
use crate::setup::{Castles, Setup, SetupView};
use crate::square::Square;
use crate::types::{CastlingMode, CastlingSide, Move, RemainingChecks, Role, Variant};

verus! {

broadcast use Chess::lemma_held;

/// A Crazyhouse position.
#[derive(Clone, Copy, Debug)]
pub struct Crazyhouse {
    chess: Chess,
    pockets: Material,
}

impl Crazyhouse {
    /// What the position holds.
    pub closed spec fn held(&self) -> State {
        State { variant: Variant::Crazyhouse, pockets: self.pockets, ..self.chess.held() }
    }

    /// The starting position of Crazyhouse.
    pub fn new() -> (r: Crazyhouse)
        ensures
            r.held() == crate::reachable::initial(Variant::Crazyhouse),
    {
        Crazyhouse { chess: Chess::new(), pockets: Material::new() }
    }

    /// The pocket of the side to move.
    pub fn our_pocket(&self) -> (r: &MaterialSide)
        ensures
            *r == self.held().pockets.by_color_spec(self.held().turn),
    {
        self.pockets.by_color(self.chess.turn())
    }

    /// The pocket of the side to move, to change it.
    pub fn our_pocket_mut(&mut self) -> (r: &mut MaterialSide)
        ensures
            *r == old(self).held().pockets.by_color_spec(old(self).held().turn),
            final(self).held() == (State {
                pockets: old(self).held().pockets.with_side(old(self).held().turn, *final(r)),
                ..old(self).held()
            }),
    {
        let turn = self.chess.turn();
        self.pockets.by_color_mut(turn)
    }

    /// The squares on which a piece may be dropped.
    pub fn legal_put_squares(&self) -> (r: Bitboard)
        ensures
            r.0 == put_squares(self.held()),
    {
        let checking = self.chess.checkers();
        if checking.is_empty() {
            Bitboard(!self.chess.board().occupied().0)
        } else if let Some(checker) = checking.single_square() {
            match self.chess.board().king_of(self.chess.turn()) {
                Some(k) => Bitboard(
                    attacks::between(checker, k).0 & !self.chess.board().occupied().0,
                ),
                None => Bitboard(0),
            }
        } else {
            Bitboard(0)
        }
    }

    /// Appends the drop of a piece of `role` on `to`, if the pocket holds
    /// one.
    fn push_drop(pocket: &MaterialSide, role: Role, to: Square, moves: &mut MoveList)
        ensures
            final(moves)@ == old(moves)@ + piece_drop(*pocket, role, to),
    {
        if pocket.by_role(role) > 0 {
            moves.push(Move::Put { role, to });
        }
        assert(moves@ =~= old(moves)@ + piece_drop(*pocket, role, to));
    }

    /// Appends the drops.
    fn gen_drops(&self, moves: &mut MoveList)
        ensures
            final(moves)@ == old(moves)@ + drops(self.held()),
    {
        let pocket = *self.our_pocket();
        let targets = self.legal_put_squares();
        let ghost f = each_drop_square(pocket);
        let ghost start = moves@;
        let ghost all = moves@ + for_each(targets.0, f);
        let mut rest = targets;
        while rest.0 != 0
            invariant
                f == each_drop_square(pocket),
                moves@ + for_each(rest.0, f) == all,
            decreases rest.0,
        {
            proof {
                lemma_lsb(rest.0);
                movegen::lemma_for_each_step(rest.0, f, moves@, all);
            }
            let ghost before = moves@;
            if let Some(to) = rest.pop_front() {
                Crazyhouse::push_drop(&pocket, Role::Knight, to, moves);
                Crazyhouse::push_drop(&pocket, Role::Bishop, to, moves);
                Crazyhouse::push_drop(&pocket, Role::Rook, to, moves);
                Crazyhouse::push_drop(&pocket, Role::Queen, to, moves);
                assert(moves@ =~= before + f(to));
            }
        }
        assert(moves@ + for_each(0, f) =~= moves@);
        let ghost middle = moves@;
        if pocket.pawns > 0 {
            let ghost g = each_pawn_drop();
            let ghost all_pawns = moves@ + for_each(targets.0 & !BACKRANKS, g);
            let mut rest = Bitboard(targets.0 & !BACKRANKS);
            while rest.0 != 0
                invariant
                    g == each_pawn_drop(),
                    moves@ + for_each(rest.0, g) == all_pawns,
                decreases rest.0,
            {
                proof {
                    lemma_lsb(rest.0);
                    movegen::lemma_for_each_step(rest.0, g, moves@, all_pawns);
                }
                let ghost before = moves@;
                if let Some(to) = rest.pop_front() {
                    moves.push(Move::Put { role: Role::Pawn, to });
                    assert(moves@ =~= before + g(to));
                }
            }
            assert(moves@ + for_each(0, g) =~= moves@);
        }
        assert(moves@ =~= start + drops(self.held()));
    }

    /// Collects the legal moves.
    fn gen_legal(&self, moves: &mut MoveList)
        ensures
            final(moves)@ == legal_moves_spec(self.held()),
    {
        self.chess.legal_moves(moves);
        self.gen_drops(moves);
    }
}

impl Setup for Crazyhouse {
    open spec fn setup(&self) -> SetupView {
        setup_of(self.held())
    }

    fn board(&self) -> (r: &Board) {
        self.chess.board()
    }

    fn pockets(&self) -> (r: Option<Material>) {
        Some(self.pockets)
    }

    fn turn(&self) -> (r: Color) {
        self.chess.turn()
    }

    fn castling_rights(&self) -> (r: Bitboard) {
        self.chess.castling_rights()
    }

    fn ep_square(&self) -> (r: Option<Square>) {
        self.chess.ep_square()
    }

    fn remaining_checks(&self) -> (r: Option<RemainingChecks>) {
        None
    }

    fn halfmoves(&self) -> (r: u32) {
        self.chess.halfmoves()
    }

    fn fullmoves(&self) -> (r: u32) {
        self.chess.fullmoves()
    }
}

impl FromSetup for Crazyhouse {
    fn from_setup_with_mode<S: Setup>(setup: &S, mode: Option<CastlingMode>) -> (r: Result<
        Crazyhouse,
        PositionError<Crazyhouse>,
    >) {
        let (chess, mut errors) = Chess::from_setup_with_mode_unchecked(setup, mode);
        let pockets = match setup.pockets() {
            Some(pockets) => pockets,
            None => Material::new(),
        };
        if pockets.count() + chess.board().occupied().count() > 64 {
            errors.variant = true;
        } else if pockets.white.kings > 0 || pockets.black.kings > 0 {
            errors.too_many_kings = true;
        }
        PositionError { pos: Some(Crazyhouse { chess, pockets }), errors }.strict()
    }
}

impl Position for Crazyhouse {
    open spec fn state(&self) -> State {
        self.held()
    }

    open spec fn variant() -> Variant {
        Variant::Crazyhouse
    }

    proof fn lemma_setup(&self) {
    }

    fn play_unchecked(&mut self, m: &Move) {
        let ghost before = self.held();
        let promoted = self.chess.board().promoted();
        let pocket = self.our_pocket_mut();
        match *m {
            Move::Normal { capture: Some(capture), to, .. } => {
                let role = if promoted.contains(to) {
                    Role::Pawn
                } else {
                    capture
                };
                let n = pocket.by_role(role).saturating_add(1);
                pocket.set_role(role, n);
            },
            Move::EnPassant { .. } => {
                let n = pocket.pawns.saturating_add(1);
                pocket.set_role(Role::Pawn, n);
            },
            Move::Put { role, .. } => {
                let n = pocket.by_role(role).saturating_sub(1);
                pocket.set_role(role, n);
            },
            _ => {},
        }
        assert(self.held().pockets == before.pockets.with_side(before.turn, pocket_after(before, *m)));
        self.chess.play_unchecked(m);
    }

    fn maybe_ep_square(&self) -> (r: Option<Square>) {
        self.chess.maybe_ep_square()
    }

    fn castles(&self) -> (r: &Castles) {
        self.chess.castles()
    }

    fn legal_moves(&self, moves: &mut MoveList) {
        let _ = self.chess.castles();
        proof {
            lemma_legal_moves(self.held());
        }
        self.gen_legal(moves);
    }

    fn castling_moves(&self, side: CastlingSide, moves: &mut MoveList) {
        self.chess.castling_moves(side, moves);
    }

    fn en_passant_moves(&self, moves: &mut MoveList) {
        self.chess.en_passant_moves(moves);
    }

    fn san_candidates(&self, role: Role, to: Square, moves: &mut MoveList) {
        self.chess.san_candidates(role, to, moves);
        let ghost before = moves@;
        if self.our_pocket().by_role(role) > 0 && self.legal_put_squares().contains(to) && (role
            != Role::Pawn || !Bitboard(BACKRANKS).contains(to)) {
            moves.push(Move::Put { role, to });
        }
        assert(moves@ =~= before + drop_candidate(self.held(), role, to));
    }

    fn capture_moves(&self, moves: &mut MoveList) {
        self.gen_legal(moves);
        retain_captures(moves);
    }

    fn promotion_moves(&self, moves: &mut MoveList) {
        self.gen_legal(moves);
        retain_promotions(moves);
    }

    fn is_irreversible(&self, m: &Move) -> (r: bool) {
        match *m {
            Move::Castle { .. } => true,
            Move::Normal { role, from, to, .. } => self.castling_rights().contains(from)
                || self.castling_rights().contains(to) || (role == Role::King
                && self.chess.castles().has_side(self.chess.turn())),
            _ => false,
        }
    }

    fn king_attackers(&self, square: Square, attacker: Color, occupied: Bitboard) -> (r: Bitboard) {
        self.chess.king_attackers(square, attacker, occupied)
    }

    fn has_insufficient_material(&self, color: Color) -> (r: bool) {
        // In practice no material can leave the game, but this is simple
        // to implement anyway. Bishops can be captured and put onto a
        // different color complex.
        let board = self.chess.board();
        board.occupied().count() + self.pockets.count() <= 3 && board.promoted().is_empty()
            && board.pawns().is_empty() && board.rooks_and_queens().is_empty()
            && self.pockets.white.pawns == 0 && self.pockets.black.pawns == 0
            && self.pockets.white.rooks == 0 && self.pockets.black.rooks == 0
            && self.pockets.white.queens == 0 && self.pockets.black.queens == 0
    }

    fn is_variant_end(&self) -> (r: bool) {
        false
    }

    fn variant_outcome(&self) -> (r: Option<Outcome>) {
        None
    }
}

impl Default for Crazyhouse {
    fn default() -> (r: Crazyhouse)
        ensures
            r.held() == crate::reachable::initial(Variant::Crazyhouse),
    {
        Crazyhouse::new()
    }
}

} // verus!
