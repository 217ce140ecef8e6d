//! Generation of moves, layer by layer.

use vstd::prelude::*;
use crate::attacks;
use crate::attacks::{
    aligned_spec, attacks_spec, between_spec, bishop_attacks_spec, king_attacks_spec,
    pawn_attacks_spec, ray_spec, rook_attacks_spec,
};
use crate::bitboard::{
    bit, drop_lsb, has_bit, lemma_drop_lsb_bits, lemma_lsb, lemma_no_bits, lsb,
    relative_rank_bits,
    relative_shift_spec, Bitboard, BACKRANKS,
};
use crate::board::{Board, BoardView};
use crate::color::Color;
use crate::movelist::MoveList;
use crate::setup::Castles;
use crate::square::{Rank, Square};
use crate::types::{CastlingSide, Move, Piece, Role, Variant};

verus! {

/// The moves that `f` gives for each square of a set, lowest square first.
pub open spec fn for_each(set: u64, f: spec_fn(Square) -> Seq<Move>) -> Seq<Move>
    decreases set,
{
    if set == 0 {
        Seq::empty()
    } else {
        proof {
            crate::bitboard::lemma_drop_lsb_decreases(set);
        }
        f(Square::at(lsb(set))) + for_each(drop_lsb(set), f)
    }
}

/// One loop step over a set: what is done for the lowest square, followed
/// by the rest, is the whole.
pub proof fn lemma_for_each_step(
    set: u64,
    f: spec_fn(Square) -> Seq<Move>,
    done: Seq<Move>,
    all: Seq<Move>,
)
    requires
        set != 0,
        done + for_each(set, f) == all,
    ensures
        (done + f(Square::at(lsb(set)))) + for_each(drop_lsb(set), f) == all,
{
    assert((done + f(Square::at(lsb(set)))) + for_each(drop_lsb(set), f) =~= done + for_each(
        set,
        f,
    ));
}

/// The move of a piece of `role` from `from` to `to`, which captures what
/// stands there.
pub open spec fn normal_move(board: BoardView, role: Role, from: Square, to: Square) -> Move {
    Move::Normal { role, from, capture: board.role_at(to.idx()), to, promotion: None }
}

pub open spec fn each_target(board: BoardView, role: Role, from: Square) -> spec_fn(Square) -> Seq<
    Move,
> {
    |to: Square| seq![normal_move(board, role, from, to)]
}

/// The moves of a piece of `role` from `from` to each of `targets`.
pub open spec fn moves_to(board: BoardView, role: Role, from: Square, targets: u64) -> Seq<Move> {
    for_each(targets, each_target(board, role, from))
}

pub open spec fn each_piece(board: BoardView, piece: Piece, target: u64) -> spec_fn(Square) -> Seq<
    Move,
> {
    |from: Square|
        moves_to(
            board,
            piece.role,
            from,
            attacks_spec(from.idx(), piece, board.occupied()) & target,
        )
}

/// The moves of all pieces like `piece` to the squares of `target` that
/// they attack.
pub open spec fn piece_moves(board: BoardView, piece: Piece, target: u64) -> Seq<Move> {
    for_each(board.by_piece(piece), each_piece(board, piece, target))
}

/// Appends the moves of a piece of `role` from `from` to each of `targets`.
pub fn push_moves_to(board: &Board, role: Role, from: Square, targets: Bitboard, moves: &mut MoveList)
    ensures
        final(moves)@ == old(moves)@ + moves_to(board@, role, from, targets.0),
{
    let ghost f = each_target(board@, role, from);
    let ghost all = moves@ + moves_to(board@, role, from, targets.0);
    let mut rest = targets;
    while rest.0 != 0
        invariant
            f == each_target(board@, role, from),
            moves@ + for_each(rest.0, f) == all,
        decreases rest.0,
    {
        proof {
            lemma_lsb(rest.0);
            lemma_for_each_step(rest.0, f, moves@, all);
        }
        let ghost before = moves@;
        if let Some(to) = rest.pop_front() {
            moves.push(Move::Normal { role, from, capture: board.role_at(to), to, promotion: None });
            assert(moves@ =~= before + f(to));
        }
    }
    assert(moves@ + for_each(0, f) =~= moves@);
}

/// Appends the moves of all pieces like `piece` to the squares of `target`
/// that they attack.
pub fn gen_piece_moves(board: &Board, piece: Piece, target: Bitboard, moves: &mut MoveList)
    ensures
        final(moves)@ == old(moves)@ + piece_moves(board@, piece, target.0),
{
    let ghost f = each_piece(board@, piece, target.0);
    let ghost all = moves@ + piece_moves(board@, piece, target.0);
    let occupied = board.occupied();
    let mut rest = board.by_piece(piece);
    while rest.0 != 0
        invariant
            f == each_piece(board@, piece, target.0),
            occupied.0 == board@.occupied(),
            moves@ + for_each(rest.0, f) == all,
        decreases rest.0,
    {
        proof {
            lemma_lsb(rest.0);
            lemma_for_each_step(rest.0, f, moves@, all);
        }
        if let Some(from) = rest.pop_front() {
            let targets = Bitboard(attacks::attacks(from, piece, occupied).0 & target.0);
            push_moves_to(board, piece.role, from, targets, moves);
        }
    }
    assert(moves@ + for_each(0, f) =~= moves@);
}

/// The four promotions of a pawn that moves from `from` to `to`.
pub open spec fn promotions(from: Square, to: Square, capture: Option<Role>) -> Seq<Move> {
    seq![
        Move::Normal { role: Role::Pawn, from, capture, to, promotion: Some(Role::Queen) },
        Move::Normal { role: Role::Pawn, from, capture, to, promotion: Some(Role::Rook) },
        Move::Normal { role: Role::Pawn, from, capture, to, promotion: Some(Role::Bishop) },
        Move::Normal { role: Role::Pawn, from, capture, to, promotion: Some(Role::Knight) },
    ]
}

pub open spec fn each_promotion_target(board: BoardView, from: Square) -> spec_fn(Square) -> Seq<
    Move,
> {
    |to: Square| promotions(from, to, board.role_at(to.idx()))
}

/// The enemy pieces that a pawn of `turn` on `from` attacks, among the
/// squares of `target`.
pub open spec fn pawn_capture_targets(
    board: BoardView,
    turn: Color,
    from: Square,
    target: u64,
) -> u64 {
    pawn_attacks_spec(turn, from.idx()) & board.by_color(turn.other_spec()) & target
}

pub open spec fn each_capturing_pawn(
    board: BoardView,
    turn: Color,
    target: u64,
    promote: bool,
) -> spec_fn(Square) -> Seq<Move> {
    |from: Square|
        if promote {
            for_each(
                pawn_capture_targets(board, turn, from, target),
                each_promotion_target(board, from),
            )
        } else {
            moves_to(board, Role::Pawn, from, pawn_capture_targets(board, turn, from, target))
        }
}

/// The captures of the pawns of `turn` that stand on `pawns`, as
/// promotions if `promote` is set.
pub open spec fn pawn_captures(
    board: BoardView,
    turn: Color,
    pawns: u64,
    target: u64,
    promote: bool,
) -> Seq<Move> {
    for_each(pawns, each_capturing_pawn(board, turn, target, promote))
}

/// How far a pawn of `turn` is from the square it came from, after
/// advancing `steps` indexes: negative for white, whose pawns move up.
pub open spec fn back(turn: Color, steps: int) -> int {
    if turn == Color::White {
        -steps
    } else {
        steps
    }
}

pub open spec fn each_push_target(turn: Color, steps: int, promote: bool) -> spec_fn(Square) -> Seq<
    Move,
> {
    |to: Square|
        match to.offset_spec(back(turn, steps)) {
            Some(from) => if promote {
                promotions(from, to, None)
            } else {
                seq![
                    Move::Normal { role: Role::Pawn, from, capture: None, to, promotion: None },
                ]
            },
            None => Seq::empty(),
        }
}

/// The pawn advances of `steps` indexes that end on the squares of
/// `targets`.
pub open spec fn pawn_pushes(turn: Color, targets: u64, steps: int, promote: bool) -> Seq<Move> {
    for_each(targets, each_push_target(turn, steps, promote))
}

/// The pawns of `turn`.
pub open spec fn our_pawns(board: BoardView, turn: Color) -> u64 {
    board.by_piece(Piece { color: turn, role: Role::Pawn })
}

/// The pawns of `turn` on the rank before promotion.
pub open spec fn seventh(board: BoardView, turn: Color) -> u64 {
    our_pawns(board, turn) & relative_rank_bits(turn, 6)
}

/// The empty squares one step ahead of a pawn of `turn`.
pub open spec fn single_moves(board: BoardView, turn: Color) -> u64 {
    relative_shift_spec(our_pawns(board, turn), turn, 8) & !board.occupied()
}

/// The empty squares two steps ahead of a pawn of `turn`, over an empty
/// square, on the fourth rank of `turn` or on its third.
pub open spec fn double_moves(board: BoardView, turn: Color) -> u64 {
    relative_shift_spec(single_moves(board, turn), turn, 8) & (relative_rank_bits(turn, 3)
        | relative_rank_bits(turn, 2)) & !board.occupied()
}

/// The pawn moves of `turn` to the squares of `target`, but for en
/// passant: captures, capturing promotions, single steps, promotions and
/// double steps.
pub open spec fn pawn_moves(board: BoardView, turn: Color, target: u64) -> Seq<Move> {
    pawn_captures(board, turn, our_pawns(board, turn) & !seventh(board, turn), target, false)
        + pawn_captures(board, turn, seventh(board, turn), target, true) + pawn_pushes(
        turn,
        single_moves(board, turn) & target & !BACKRANKS,
        8,
        false,
    ) + pawn_pushes(turn, single_moves(board, turn) & target & BACKRANKS, 8, true) + pawn_pushes(
        turn,
        double_moves(board, turn) & target,
        16,
        false,
    )
}

/// The moves of pawns, knights, bishops, rooks and queens of `turn` to the
/// squares of `target`.
pub open spec fn non_king(board: BoardView, turn: Color, target: u64) -> Seq<Move> {
    pawn_moves(board, turn, target) + piece_moves(
        board,
        Piece { color: turn, role: Role::Knight },
        target,
    ) + piece_moves(board, Piece { color: turn, role: Role::Bishop }, target) + piece_moves(
        board,
        Piece { color: turn, role: Role::Rook },
        target,
    ) + piece_moves(board, Piece { color: turn, role: Role::Queen }, target)
}

pub open spec fn each_safe_king_target(board: BoardView, turn: Color, king: Square) -> spec_fn(
    Square,
) -> Seq<Move> {
    |to: Square|
        if board.attacks_to(to.idx(), turn.other_spec(), board.occupied()) == 0 {
            seq![normal_move(board, Role::King, king, to)]
        } else {
            Seq::empty()
        }
}

/// The moves of the king on `king` to the squares of `target` that the
/// other side does not attack.
pub open spec fn safe_king(board: BoardView, turn: Color, king: Square, target: u64) -> Seq<Move> {
    for_each(king_attacks_spec(king.idx()) & target, each_safe_king_target(board, turn, king))
}

pub open spec fn each_en_passant(to: Square) -> spec_fn(Square) -> Seq<Move> {
    |from: Square| seq![Move::EnPassant { from, to }]
}

/// The en passant captures of `turn`, with or without check.
pub open spec fn en_passant(board: BoardView, turn: Color, ep_square: Option<Square>) -> Seq<Move> {
    match ep_square {
        Some(to) => for_each(
            board.pawns & board.by_color(turn) & pawn_attacks_spec(turn.other_spec(), to.idx()),
            each_en_passant(to),
        ),
        None => Seq::empty(),
    }
}

pub open spec fn each_origin(board: BoardView, role: Role, to: Square) -> spec_fn(Square) -> Seq<
    Move,
> {
    |from: Square| seq![normal_move(board, role, from, to)]
}

/// The moves of a piece of `role` to `to` from each of `origins`.
pub open spec fn moves_from(board: BoardView, role: Role, origins: u64, to: Square) -> Seq<Move> {
    for_each(origins, each_origin(board, role, to))
}

/// Appends the four promotions of a pawn that moves from `from` to `to`.
pub fn push_promotions(moves: &mut MoveList, from: Square, to: Square, capture: Option<Role>)
    ensures
        final(moves)@ == old(moves)@ + promotions(from, to, capture),
{
    moves.push(Move::Normal { role: Role::Pawn, from, capture, to, promotion: Some(Role::Queen) });
    moves.push(Move::Normal { role: Role::Pawn, from, capture, to, promotion: Some(Role::Rook) });
    moves.push(Move::Normal { role: Role::Pawn, from, capture, to, promotion: Some(Role::Bishop) });
    moves.push(Move::Normal { role: Role::Pawn, from, capture, to, promotion: Some(Role::Knight) });
    assert(moves@ =~= old(moves)@ + promotions(from, to, capture));
}

/// Appends the capturing promotions of a pawn from `from` to each of
/// `targets`.
fn push_promotions_to(board: &Board, from: Square, targets: Bitboard, moves: &mut MoveList)
    ensures
        final(moves)@ == old(moves)@ + for_each(targets.0, each_promotion_target(board@, from)),
{
    let ghost f = each_promotion_target(board@, from);
    let ghost all = moves@ + for_each(targets.0, f);
    let mut rest = targets;
    while rest.0 != 0
        invariant
            f == each_promotion_target(board@, from),
            moves@ + for_each(rest.0, f) == all,
        decreases rest.0,
    {
        proof {
            lemma_lsb(rest.0);
            lemma_for_each_step(rest.0, f, moves@, all);
        }
        if let Some(to) = rest.pop_front() {
            push_promotions(moves, from, to, board.role_at(to));
        }
    }
    assert(moves@ + for_each(0, f) =~= moves@);
}

/// Appends the captures of the pawns of `turn` that stand on `pawns`.
fn gen_pawn_captures(
    board: &Board,
    turn: Color,
    pawns: Bitboard,
    target: Bitboard,
    promote: bool,
    moves: &mut MoveList,
)
    ensures
        final(moves)@ == old(moves)@ + pawn_captures(board@, turn, pawns.0, target.0, promote),
{
    let ghost f = each_capturing_pawn(board@, turn, target.0, promote);
    let ghost all = moves@ + for_each(pawns.0, f);
    let them = board.by_color(turn.other());
    let mut rest = pawns;
    while rest.0 != 0
        invariant
            f == each_capturing_pawn(board@, turn, target.0, promote),
            them.0 == board@.by_color(turn.other_spec()),
            moves@ + for_each(rest.0, f) == all,
        decreases rest.0,
    {
        proof {
            lemma_lsb(rest.0);
            lemma_for_each_step(rest.0, f, moves@, all);
        }
        if let Some(from) = rest.pop_front() {
            let targets = Bitboard(attacks::pawn_attacks(turn, from).0 & them.0 & target.0);
            if promote {
                push_promotions_to(board, from, targets, moves);
            } else {
                push_moves_to(board, Role::Pawn, from, targets, moves);
            }
        }
    }
    assert(moves@ + for_each(0, f) =~= moves@);
}

/// Appends the pawn advances of `steps` indexes that end on `targets`.
fn gen_pawn_pushes(turn: Color, targets: Bitboard, steps: i8, promote: bool, moves: &mut MoveList)
    requires
        0 < steps <= 16,
    ensures
        final(moves)@ == old(moves)@ + pawn_pushes(turn, targets.0, steps as int, promote),
{
    let ghost f = each_push_target(turn, steps as int, promote);
    let ghost all = moves@ + for_each(targets.0, f);
    let delta: i8 = match turn {
        Color::White => -steps,
        Color::Black => steps,
    };
    let mut rest = targets;
    while rest.0 != 0
        invariant
            f == each_push_target(turn, steps as int, promote),
            delta == back(turn, steps as int),
            moves@ + for_each(rest.0, f) == all,
        decreases rest.0,
    {
        proof {
            lemma_lsb(rest.0);
            lemma_for_each_step(rest.0, f, moves@, all);
        }
        let ghost before = moves@;
        if let Some(to) = rest.pop_front() {
            if let Some(from) = to.offset(delta) {
                if promote {
                    push_promotions(moves, from, to, None);
                } else {
                    moves.push(
                        Move::Normal { role: Role::Pawn, from, capture: None, to, promotion: None },
                    );
                }
            }
            assert(moves@ =~= before + f(to));
        }
    }
    assert(moves@ + for_each(0, f) =~= moves@);
}

/// Appends the pawn moves of `turn` to the squares of `target`, but for en
/// passant.
pub fn gen_pawn_moves(board: &Board, turn: Color, target: Bitboard, moves: &mut MoveList)
    ensures
        final(moves)@ == old(moves)@ + pawn_moves(board@, turn, target.0),
{
    let occupied = board.occupied();
    let pawns = board.by_piece(turn.pawn());
    let seventh = Bitboard(pawns.0 & Bitboard::relative_rank(turn, Rank::Seventh).0);
    gen_pawn_captures(board, turn, Bitboard(pawns.0 & !seventh.0), target, false, moves);
    gen_pawn_captures(board, turn, seventh, target, true, moves);
    let single = Bitboard(pawns.relative_shift(turn, 8).0 & !occupied.0);
    let double = Bitboard(
        single.relative_shift(turn, 8).0 & (Bitboard::relative_rank(turn, Rank::Fourth).0
            | Bitboard::relative_rank(turn, Rank::Third).0) & !occupied.0,
    );
    gen_pawn_pushes(turn, Bitboard(single.0 & target.0 & !BACKRANKS), 8, false, moves);
    gen_pawn_pushes(turn, Bitboard(single.0 & target.0 & BACKRANKS), 8, true, moves);
    gen_pawn_pushes(turn, Bitboard(double.0 & target.0), 16, false, moves);
    assert(moves@ =~= old(moves)@ + pawn_moves(board@, turn, target.0));
}

/// Appends the moves of pawns, knights, bishops, rooks and queens of
/// `turn` to the squares of `target`.
pub fn gen_non_king(board: &Board, turn: Color, target: Bitboard, moves: &mut MoveList)
    ensures
        final(moves)@ == old(moves)@ + non_king(board@, turn, target.0),
{
    gen_pawn_moves(board, turn, target, moves);
    gen_piece_moves(board, turn.knight(), target, moves);
    gen_piece_moves(board, turn.bishop(), target, moves);
    gen_piece_moves(board, turn.rook(), target, moves);
    gen_piece_moves(board, turn.queen(), target, moves);
    assert(moves@ =~= old(moves)@ + non_king(board@, turn, target.0));
}

/// Appends the moves of the king on `king` to the squares of `target` that
/// the other side does not attack.
pub fn gen_safe_king(board: &Board, turn: Color, king: Square, target: Bitboard, moves: &mut MoveList)
    ensures
        final(moves)@ == old(moves)@ + safe_king(board@, turn, king, target.0),
{
    let ghost f = each_safe_king_target(board@, turn, king);
    let ghost all = moves@ + safe_king(board@, turn, king, target.0);
    let occupied = board.occupied();
    let mut rest = Bitboard(attacks::king_attacks(king).0 & target.0);
    while rest.0 != 0
        invariant
            f == each_safe_king_target(board@, turn, king),
            occupied.0 == board@.occupied(),
            moves@ + for_each(rest.0, f) == all,
        decreases rest.0,
    {
        proof {
            lemma_lsb(rest.0);
            lemma_for_each_step(rest.0, f, moves@, all);
        }
        let ghost before = moves@;
        if let Some(to) = rest.pop_front() {
            if board.attacks_to(to, turn.other(), occupied).is_empty() {
                moves.push(
                    Move::Normal {
                        role: Role::King,
                        from: king,
                        capture: board.role_at(to),
                        to,
                        promotion: None,
                    },
                );
            }
            assert(moves@ =~= before + f(to));
        }
    }
    assert(moves@ + for_each(0, f) =~= moves@);
}

/// Appends the en passant captures of `turn`, with or without check, and
/// tells whether there is one.
pub fn gen_en_passant(board: &Board, turn: Color, ep_square: Option<Square>, moves: &mut MoveList) -> (found:
    bool)
    ensures
        final(moves)@ == old(moves)@ + en_passant(board@, turn, ep_square),
        found == (en_passant(board@, turn, ep_square).len() > 0),
{
    let to = match ep_square {
        Some(to) => to,
        None => {
            assert(moves@ + Seq::<Move>::empty() =~= moves@);
            return false;
        },
    };
    let ghost f = each_en_passant(to);
    let ghost all = moves@ + en_passant(board@, turn, ep_square);
    let mut found = false;
    let mut rest = Bitboard(
        board.pawns().0 & board.by_color(turn).0 & attacks::pawn_attacks(turn.other(), to).0,
    );
    while rest.0 != 0
        invariant
            f == each_en_passant(to),
            moves@ + for_each(rest.0, f) == all,
            found == (moves@.len() > old(moves)@.len()),
            moves@.len() >= old(moves)@.len(),
        decreases rest.0,
    {
        proof {
            lemma_lsb(rest.0);
            lemma_for_each_step(rest.0, f, moves@, all);
        }
        let ghost before = moves@;
        if let Some(from) = rest.pop_front() {
            moves.push(Move::EnPassant { from, to });
            found = true;
            assert(moves@ =~= before + f(from));
        }
    }
    assert(moves@ + for_each(0, f) =~= moves@);
    found
}

/// Appends the moves of a piece of `role` to `to` from each of `origins`.
pub fn push_moves_from(board: &Board, role: Role, origins: Bitboard, to: Square, moves: &mut MoveList)
    ensures
        final(moves)@ == old(moves)@ + moves_from(board@, role, origins.0, to),
{
    let ghost f = each_origin(board@, role, to);
    let ghost all = moves@ + moves_from(board@, role, origins.0, to);
    let mut rest = origins;
    while rest.0 != 0
        invariant
            f == each_origin(board@, role, to),
            moves@ + for_each(rest.0, f) == all,
        decreases rest.0,
    {
        proof {
            lemma_lsb(rest.0);
            lemma_for_each_step(rest.0, f, moves@, all);
        }
        let ghost before = moves@;
        if let Some(from) = rest.pop_front() {
            moves.push(Move::Normal { role, from, capture: board.role_at(to), to, promotion: None });
            assert(moves@ =~= before + f(from));
        }
    }
    assert(moves@ + for_each(0, f) =~= moves@);
}

/// The union of what `f` gives for each square of a set, added to `acc`.
pub open spec fn fold_or(set: u64, f: spec_fn(Square) -> u64, acc: u64) -> u64
    decreases set,
{
    if set == 0 {
        acc
    } else {
        proof {
            crate::bitboard::lemma_drop_lsb_decreases(set);
        }
        fold_or(drop_lsb(set), f, acc | f(Square::at(lsb(set))))
    }
}

pub open spec fn each_sniper(board: BoardView, king: Square) -> spec_fn(Square) -> u64 {
    |sniper: Square|
        {
            let b = between_spec(king.idx(), sniper.idx()) & board.occupied();
            if Bitboard(b).more_than_one_spec() {
                0
            } else {
                b
            }
        }
}

/// The rooks, bishops and queens that would attack `king` on an otherwise
/// empty board.
pub open spec fn snipers(board: BoardView, king: Square) -> u64 {
    (rook_attacks_spec(king.idx(), 0) & (board.rooks | board.queens)) | (bishop_attacks_spec(
        king.idx(),
        0,
    ) & (board.bishops | board.queens))
}

/// The pieces that alone stand between `king` and a sniper among `enemy`.
pub open spec fn slider_blockers(board: BoardView, enemy: u64, king: Square) -> u64 {
    fold_or(snipers(board, king) & enemy, each_sniper(board, king), 0)
}

/// The squares that stay empty of pieces when a pawn captures en passant
/// from `from` to `to`: the pawn leaves, the captured pawn beside it
/// leaves, and `to` is taken.
pub open spec fn en_passant_occupied(board: BoardView, from: Square, to: Square) -> u64 {
    ((board.occupied() ^ bit(from.idx())) ^ bit(8 * (from.idx() / 8) + to.idx() % 8)) | bit(
        to.idx(),
    )
}

/// True if the move does not expose `king` to a rook, bishop or queen: a
/// blocker stays on its line with the king, and an en passant capture
/// opens no line to the king.
pub open spec fn is_safe_spec(
    board: BoardView,
    turn: Color,
    king: Square,
    m: Move,
    blockers: u64,
) -> bool {
    match m {
        Move::Normal { from, to, .. } => !has_bit(blockers, from.idx()) || aligned_spec(
            from.idx(),
            to.idx(),
            king.idx(),
        ),
        Move::EnPassant { from, to } => {
            let occupied = en_passant_occupied(board, from, to);
            (rook_attacks_spec(king.idx(), occupied) & board.by_color(turn.other_spec()) & (
            board.rooks | board.queens)) == 0 && (bishop_attacks_spec(king.idx(), occupied)
                & board.by_color(turn.other_spec()) & (board.bishops | board.queens)) == 0
        },
        _ => true,
    }
}

pub open spec fn safe_fn(board: BoardView, turn: Color, king: Square, blockers: u64) -> spec_fn(
    Move,
) -> bool {
    |m: Move| is_safe_spec(board, turn, king, m, blockers)
}

pub open spec fn each_checker(king: Square) -> spec_fn(Square) -> u64 {
    |checker: Square| ray_spec(checker.idx(), king.idx()) ^ bit(checker.idx())
}

/// The moves out of check: the king steps to a safe square off the lines
/// of the checking rooks, bishops and queens, and, if a single piece gives
/// check, another piece captures it or steps between it and the king.
pub open spec fn evasions(board: BoardView, turn: Color, king: Square, checkers: u64) -> Seq<Move> {
    let sliders = checkers & (board.bishops ^ board.rooks ^ board.queens);
    let attacked = fold_or(sliders, each_checker(king), 0);
    let checker = Square::at(lsb(checkers));
    safe_king(board, turn, king, !board.by_color(turn) & !attacked) + (if checkers != 0
        && drop_lsb(checkers) == 0 {
        non_king(
            board,
            turn,
            (between_spec(king.idx(), checker.idx()) | bit(checker.idx())) & !board.by_color(turn),
        )
    } else {
        Seq::empty()
    })
}

/// The pieces of `attacker` that a king on the square with index `sq`
/// would have to deal with. In Atomic chess a king beside the other king
/// is safe, and in Antichess kings are never attacked.
pub open spec fn king_attackers_spec(
    variant: Variant,
    board: BoardView,
    sq: int,
    attacker: Color,
    occupied: u64,
) -> u64 {
    match variant {
        Variant::Atomic => if king_attacks_spec(sq) & board.kings & board.by_color(attacker)
            != 0 {
            0
        } else {
            board.attacks_to(sq, attacker, occupied)
        },
        Variant::Antichess => 0,
        _ => board.attacks_to(sq, attacker, occupied),
    }
}

/// The squares taken while `turn` castles on `side` with the given rook:
/// king and rook have left, and the rook has arrived.
pub open spec fn castled_occupied(
    board: BoardView,
    turn: Color,
    king: Square,
    rook: Square,
    side: CastlingSide,
) -> u64 {
    board.occupied() ^ bit(king.idx()) ^ bit(rook.idx()) ^ bit(side.rook_to_spec(turn).idx())
}

/// The squares that the king of `turn` passes when it castles on `side`,
/// with the one it starts from.
pub open spec fn king_path(turn: Color, king: Square, side: CastlingSide) -> u64 {
    between_spec(king.idx(), side.king_to_spec(turn).idx()) | bit(king.idx())
}

/// The castling move of `turn` on `side`, if it is legal: the right is
/// held, the path is empty, no square that the king passes is attacked
/// once the king has left its square, and the square that it reaches is
/// not attacked once the rook has moved.
pub open spec fn castling(
    variant: Variant,
    board: BoardView,
    turn: Color,
    castles: Castles,
    king: Square,
    side: CastlingSide,
) -> Seq<Move> {
    match castles.rook_spec(turn, side) {
        None => Seq::empty(),
        Some(rook) => {
            if castles.path_spec(turn, side).0 & board.occupied() != 0 {
                Seq::empty()
            } else if exists|i: int|
                has_bit(king_path(turn, king, side), i) && #[trigger] king_attackers_spec(
                    variant,
                    board,
                    i,
                    turn.other_spec(),
                    board.occupied() ^ bit(king.idx()),
                ) != 0 {
                Seq::empty()
            } else if king_attackers_spec(
                variant,
                board,
                side.king_to_spec(turn).idx(),
                turn.other_spec(),
                castled_occupied(board, turn, king, rook, side),
            ) != 0 {
                Seq::empty()
            } else {
                seq![Move::Castle { king, rook }]
            }
        },
    }
}

/// The pieces that alone stand between `king` and a sniper among `enemy`.
pub fn slider_blockers_of(board: &Board, enemy: Bitboard, king: Square) -> (r: Bitboard)
    ensures
        r.0 == slider_blockers(board@, enemy.0, king),
{
    let ghost f = each_sniper(board@, king);
    let none = Bitboard(0);
    let occupied = board.occupied();
    let snipers = Bitboard(
        (attacks::rook_attacks(king, none).0 & board.rooks_and_queens().0) | (
        attacks::bishop_attacks(king, none).0 & board.bishops_and_queens().0),
    );
    let mut rest = Bitboard(snipers.0 & enemy.0);
    let mut blockers: u64 = 0;
    while rest.0 != 0
        invariant
            f == each_sniper(board@, king),
            occupied.0 == board@.occupied(),
            fold_or(rest.0, f, blockers) == slider_blockers(board@, enemy.0, king),
        decreases rest.0,
    {
        proof {
            lemma_lsb(rest.0);
        }
        if let Some(sniper) = rest.pop_front() {
            let b = Bitboard(attacks::between(king, sniper).0 & occupied.0);
            blockers = blockers | (if b.more_than_one() {
                0
            } else {
                b.0
            });
        }
    }
    Bitboard(blockers)
}

/// Tells whether the move exposes `king` to a rook, bishop or queen.
pub fn is_safe(board: &Board, turn: Color, king: Square, m: &Move, blockers: Bitboard) -> (r: bool)
    ensures
        r == is_safe_spec(board@, turn, king, *m, blockers.0),
{
    match *m {
        Move::Normal { from, to, .. } => !blockers.contains(from) || attacks::aligned(
            from,
            to,
            king,
        ),
        Move::EnPassant { from, to } => {
            let captured = Square::from_coords(to.file(), from.rank());
            let occupied = Bitboard(
                ((board.occupied().0 ^ (1u64 << from.index())) ^ (1u64 << captured.index())) | (1u64
                    << to.index()),
            );
            let them = board.by_color(turn.other());
            (attacks::rook_attacks(king, occupied).0 & them.0 & board.rooks_and_queens().0) == 0
                && (attacks::bishop_attacks(king, occupied).0 & them.0
                & board.bishops_and_queens().0) == 0
        },
        _ => true,
    }
}

/// Keeps the moves that do not expose `king` to a rook, bishop or queen.
pub fn retain_safe(board: &Board, turn: Color, king: Square, blockers: Bitboard, moves: &mut MoveList)
    ensures
        final(moves)@ == old(moves)@.filter(safe_fn(board@, turn, king, blockers.0)),
{
    let f = |m: &Move| -> (r: bool)
        ensures
            r == is_safe_spec(board@, turn, king, *m, blockers.0),
        { is_safe(board, turn, king, m, blockers) };
    moves.retain_by(f, Ghost(safe_fn(board@, turn, king, blockers.0)));
}

/// Appends the moves out of check.
pub fn gen_evasions(board: &Board, turn: Color, king: Square, checkers: Bitboard, moves: &mut MoveList)
    ensures
        final(moves)@ == old(moves)@ + evasions(board@, turn, king, checkers.0),
{
    let ghost f = each_checker(king);
    let sliders = Bitboard(checkers.0 & board.sliders().0);
    let mut attacked: u64 = 0;
    let mut rest = sliders;
    while rest.0 != 0
        invariant
            f == each_checker(king),
            fold_or(rest.0, f, attacked) == fold_or(sliders.0, f, 0),
        decreases rest.0,
    {
        proof {
            lemma_lsb(rest.0);
        }
        if let Some(checker) = rest.pop_front() {
            attacked = attacked | (attacks::ray(checker, king).0 ^ (1u64 << checker.index()));
        }
    }
    gen_safe_king(board, turn, king, Bitboard(!board.by_color(turn).0 & !attacked), moves);
    if let Some(checker) = checkers.single_square() {
        let target = Bitboard(
            (attacks::between(king, checker).0 | (1u64 << checker.index())) & !board.by_color(
                turn,
            ).0,
        );
        gen_non_king(board, turn, target, moves);
    }
    assert(moves@ =~= old(moves)@ + evasions(board@, turn, king, checkers.0));
}

/// The pieces of `attacker` that a king on `sq` would have to deal with.
pub fn king_attackers(
    variant: Variant,
    board: &Board,
    sq: Square,
    attacker: Color,
    occupied: Bitboard,
) -> (r: Bitboard)
    ensures
        r.0 == king_attackers_spec(variant, board@, sq.idx(), attacker, occupied.0),
{
    match variant {
        Variant::Atomic => {
            if attacks::king_attacks(sq).0 & board.kings().0 & board.by_color(attacker).0 != 0 {
                Bitboard(0)
            } else {
                board.attacks_to(sq, attacker, occupied)
            }
        },
        Variant::Antichess => Bitboard(0),
        _ => board.attacks_to(sq, attacker, occupied),
    }
}

/// Appends the castling move of `turn` on `side`, if it is legal.
pub fn gen_castling_moves(
    variant: Variant,
    board: &Board,
    turn: Color,
    castles: &Castles,
    king: Square,
    side: CastlingSide,
    moves: &mut MoveList,
)
    ensures
        final(moves)@ == old(moves)@ + castling(variant, board@, turn, *castles, king, side),
{
    proof {
        assert(moves@ + Seq::<Move>::empty() =~= moves@);
    }
    let rook = match castles.rook(turn, side) {
        Some(rook) => rook,
        None => {
            return ;
        },
    };
    let occupied = board.occupied();
    if castles.path(turn, side).0 & occupied.0 != 0 {
        return ;
    }
    let king_to = side.king_to(turn);
    let path = Bitboard(attacks::between(king, king_to).0 | (1u64 << king.index()));
    let without_king = Bitboard(occupied.0 ^ (1u64 << king.index()));
    let mut rest = path;
    while rest.0 != 0
        invariant
            path.0 == king_path(turn, king, side),
            without_king.0 == board@.occupied() ^ bit(king.idx()),
            forall|i: int| has_bit(rest.0, i) ==> has_bit(path.0, i),
            forall|i: int|
                has_bit(path.0, i) && !has_bit(rest.0, i) ==> #[trigger] king_attackers_spec(
                    variant,
                    board@,
                    i,
                    turn.other_spec(),
                    without_king.0,
                ) == 0,
            moves@ == old(moves)@,
        decreases rest.0,
    {
        proof {
            lemma_lsb(rest.0);
            assert forall|i: int|
                has_bit(drop_lsb(rest.0), i) <==> has_bit(rest.0, i) && i != lsb(rest.0) by {
                lemma_drop_lsb_bits(rest.0, i);
            }
        }
        if let Some(sq) = rest.pop_front() {
            proof {
                broadcast use Square::lemma_idx_at;

            }
            if king_attackers(variant, board, sq, turn.other(), without_king).any() {
                assert(has_bit(path.0, sq.idx()));
                return ;
            }
        }
    }
    proof {
        assert forall|i: int| !has_bit(0, i) by {
            lemma_no_bits(i);
        }
    }
    let castled = Bitboard(
        occupied.0 ^ (1u64 << king.index()) ^ (1u64 << rook.index()) ^ (1u64 << side.rook_to(
            turn,
        ).index()),
    );
    if king_attackers(variant, board, king_to, turn.other(), castled).any() {
        return ;
    }
    moves.push(Move::Castle { king, rook });
    assert(moves@ =~= old(moves)@ + seq![Move::Castle { king, rook }]);
}

} // verus!
