use shakmaty::antichess::Antichess;
use shakmaty::atomic::Atomic;
use shakmaty::bitboard::{Bitboard, BACKRANKS};
use shakmaty::board::Board;
use shakmaty::color::Color;
use shakmaty::crazyhouse::Crazyhouse;
use shakmaty::horde::Horde;
use shakmaty::king_of_the_hill::KingOfTheHill;
use shakmaty::material::{Material, MaterialSide};
use shakmaty::movelist::MoveList;
use shakmaty::position::{Chess, FromSetup, Outcome, Position, PositionErrorKind};
use shakmaty::racing_kings::RacingKings;
use shakmaty::setup::{Castles, PlainSetup, Setup};
use shakmaty::square::Square;
use shakmaty::three_check::ThreeCheck;
use shakmaty::types::{CastlingSide, Move, Piece, RemainingChecks, Role};

fn sq(name: &str) -> Square {
    Square::from_bytes(name.as_bytes()).expect("valid square")
}

fn pocket_of(pockets: &mut Material, ch: char) {
    let side = if ch.is_ascii_uppercase() { &mut pockets.white } else { &mut pockets.black };
    let role = Role::from_char(ch as u8).expect("valid piece letter");
    let n = side.by_role(role) + 1;
    side.set_role(role, n);
}

/// Reads a position in Forsyth-Edwards Notation.
fn fen(text: &str) -> PlainSetup {
    let mut fields = text.split(' ');
    let placement = fields.next().expect("piece placement");
    let mut setup = PlainSetup::empty();
    let mut board = Board::empty();
    let mut pockets: Option<Material> = None;
    let mut rank: u8 = 7;
    let mut file: u8 = 0;
    let mut last: Option<(Square, Piece)> = None;
    let mut in_pocket = false;
    for ch in placement.chars() {
        if in_pocket {
            if ch != ']' {
                pocket_of(pockets.as_mut().expect("pockets"), ch);
            }
            continue;
        }
        match ch {
            '/' => {
                if rank == 0 {
                    // A ninth field holds the pockets of Crazyhouse.
                    pockets = Some(Material::new());
                    in_pocket = true;
                } else {
                    rank -= 1;
                    file = 0;
                }
            }
            '[' => {
                pockets = Some(Material::new());
                in_pocket = true;
            }
            '1'..='8' => file += ch as u8 - b'0',
            '~' => {
                let (square, piece) = last.expect("piece before ~");
                board.set_piece_at(square, piece, true);
            }
            _ => {
                let color = Color::from_white(ch.is_ascii_uppercase());
                let role = Role::from_char(ch as u8).expect("valid piece letter");
                let square = Square::new(rank * 8 + file).expect("square on the board");
                let piece = Piece { color, role };
                board.set_piece_at(square, piece, false);
                last = Some((square, piece));
                file += 1;
            }
        }
    }
    setup.board = board;
    setup.pockets = pockets;
    setup.turn = match fields.next() {
        Some("b") => Color::Black,
        _ => Color::White,
    };
    let mut rights = Bitboard(0);
    for ch in fields.next().unwrap_or("-").chars() {
        if ch == '-' {
            continue;
        }
        let color = Color::from_white(ch.is_ascii_uppercase());
        let back: u64 = if color == Color::White { 0xff } else { 0xff << 56 };
        let candidates = Bitboard(board.rooks().0 & board.by_color(color).0 & back);
        let rook = match ch.to_ascii_lowercase() {
            'k' => candidates.last(),
            'q' => candidates.first(),
            letter => Square::new((if color == Color::White { 0 } else { 56 }) + (letter as u8 - b'a')),
        };
        match rook {
            Some(rook) => rights.add(rook),
            None => rights.add(
                Square::new(if color == Color::White { 0 } else { 56 }).expect("corner"),
            ),
        }
    }
    setup.castling_rights = rights;
    setup.ep_square = match fields.next() {
        Some("-") | None => None,
        Some(name) => Some(sq(name)),
    };
    let mut next = fields.next();
    if let Some(field) = next {
        if field.contains('+') {
            let mut counts = field.split('+');
            let white: u8 = counts.next().expect("checks").parse().expect("number");
            let black: u8 = counts.next().expect("checks").parse().expect("number");
            setup.remaining_checks = Some(RemainingChecks { white, black });
            next = fields.next();
        }
    }
    setup.halfmoves = next.and_then(|n| n.parse().ok()).unwrap_or(0);
    setup.fullmoves = fields.next().and_then(|n| n.parse().ok()).unwrap_or(1);
    setup
}

fn normal(role: Role, from: &str, to: &str, capture: Option<Role>) -> Move {
    Move::Normal { role, from: sq(from), capture, to: sq(to), promotion: None }
}

#[test]
fn test_most_known_legals() {
    let fen_text = "R6R/3Q4/1Q4Q1/4Q3/2Q4Q/Q4Q2/pp1Q4/kBNN1KB1 w - - 0 1";
    let pos = Chess::from_setup(&fen(fen_text)).ok().expect("legal position");

    let mut moves = MoveList::new();
    pos.legal_moves(&mut moves);
    assert_eq!(moves.len(), 218);
}

#[test]
fn test_pinned_san_candidate() {
    let fen_text = "R2r2k1/6pp/1Np2p2/1p2pP2/4p3/4K3/3r2PP/8 b - - 5 37";
    let pos = Chess::from_setup(&fen(fen_text)).ok().expect("valid position");

    let mut moves = MoveList::new();
    pos.san_candidates(Role::Rook, sq("d3"), &mut moves);

    assert_eq!(
        moves.get(0),
        Some(Move::Normal {
            role: Role::Rook,
            from: sq("d2"),
            capture: None,
            to: sq("d3"),
            promotion: None,
        })
    );

    assert_eq!(moves.len(), 1);
}

#[test]
fn test_promotion() {
    let fen_text = "3r3K/6PP/8/8/8/2k5/8/8 w - - 0 1";
    let pos = Chess::from_setup(&fen(fen_text)).ok().expect("valid position");

    let mut moves = MoveList::new();
    pos.legal_moves(&mut moves);
    assert!(!moves.is_empty());
    assert!(moves.to_vec().iter().all(|m| m.role() == Role::Pawn));
    assert!(moves.to_vec().iter().all(|m| m.is_promotion()));
}

fn assert_insufficient_material<P>(fen_text: &str, white: bool, black: bool)
where
    P: Position + FromSetup,
{
    let pos = P::from_setup(&fen(fen_text)).ok().expect("valid position");

    assert_eq!(pos.has_insufficient_material(Color::White), white, "{}", fen_text);
    assert_eq!(pos.has_insufficient_material(Color::Black), black, "{}", fen_text);
}

#[test]
fn test_insufficient_material() {
    let false_negative = false;

    assert_insufficient_material::<Chess>("8/5k2/8/8/8/8/3K4/8 w - - 0 1", true, true);
    assert_insufficient_material::<Chess>("8/3k4/8/8/2N5/8/3K4/8 b - - 0 1", true, true);
    assert_insufficient_material::<Chess>("8/4rk2/8/8/8/8/3K4/8 w - - 0 1", true, false);
    assert_insufficient_material::<Chess>("8/4qk2/8/8/8/8/3K4/8 w - - 0 1", true, false);
    assert_insufficient_material::<Chess>("8/4bk2/8/8/8/8/3KB3/8 w - - 0 1", false, false);
    assert_insufficient_material::<Chess>("8/8/3Q4/2bK4/B7/8/1k6/8 w - - 1 68", false, false);
    assert_insufficient_material::<Chess>("8/5k2/8/8/8/4B3/3K1B2/8 w - - 0 1", true, true);
    assert_insufficient_material::<Chess>("5K2/8/8/1B6/8/k7/6b1/8 w - - 0 39", true, true);
    assert_insufficient_material::<Chess>("8/8/8/4k3/5b2/3K4/8/2B5 w - - 0 33", true, true);
    assert_insufficient_material::<Chess>("3b4/8/8/6b1/8/8/R7/K1k5 w - - 0 1", false, true);

    assert_insufficient_material::<Atomic>("8/3k4/8/8/2N5/8/3K4/8 b - - 0 1", true, true);
    assert_insufficient_material::<Atomic>("8/4rk2/8/8/8/8/3K4/8 w - - 0 1", true, true);
    assert_insufficient_material::<Atomic>("8/4qk2/8/8/8/8/3K4/8 w - - 0 1", true, false);
    assert_insufficient_material::<Atomic>("8/1k6/8/2n5/8/3NK3/8/8 b - - 0 1", false, false);
    assert_insufficient_material::<Atomic>("8/4bk2/8/8/8/8/3KB3/8 w - - 0 1", true, true);
    assert_insufficient_material::<Atomic>("4b3/5k2/8/8/8/8/3KB3/8 w - - 0 1", false, false);
    assert_insufficient_material::<Atomic>("3Q4/5kKB/8/8/8/8/8/8 b - - 0 1", false, true);
    assert_insufficient_material::<Atomic>("8/5k2/8/8/8/8/5K2/4bb2 w - - 0 1", true, false);
    assert_insufficient_material::<Atomic>("8/5k2/8/8/8/8/5K2/4nb2 w - - 0 1", true, false);

    assert_insufficient_material::<Antichess>("8/4bk2/8/8/8/8/3KB3/8 w - - 0 1", false, false);
    assert_insufficient_material::<Antichess>("4b3/5k2/8/8/8/8/3KB3/8 w - - 0 1", false, false);
    assert_insufficient_material::<Antichess>("8/8/8/6b1/8/3B4/4B3/5B2 w - - 0 1", true, true);
    assert_insufficient_material::<Antichess>("8/8/5b2/8/8/3B4/3B4/8 w - - 0 1", true, false);
    assert_insufficient_material::<Antichess>(
        "8/5p2/5P2/8/3B4/1bB5/8/8 b - - 0 1",
        false_negative,
        false_negative,
    );

    assert_insufficient_material::<KingOfTheHill>("8/5k2/8/8/8/8/3K4/8 w - - 0 1", false, false);

    assert_insufficient_material::<RacingKings>("8/5k2/8/8/8/8/3K4/8 w - - 0 1", false, false);

    assert_insufficient_material::<ThreeCheck>("8/5k2/8/8/8/8/3K4/8 w - - 0 1", true, true);
    assert_insufficient_material::<ThreeCheck>("8/5k2/8/8/8/8/3K2N1/8 w - - 0 1", false, true);

    assert_insufficient_material::<Crazyhouse>("8/5k2/8/8/8/8/3K2N1/8 w - - 0 1", true, true);
    assert_insufficient_material::<Crazyhouse>("8/5k2/8/8/8/5B2/3KB3/8 w - - 0 1", false, false);
    assert_insufficient_material::<Crazyhouse>("8/8/8/8/3k4/3N~4/3K4/8 w - - 0 1", false, false);

    assert_insufficient_material::<Horde>("8/5k2/8/8/8/4NN2/8/8 w - - 0 1", false_negative, false);
}

#[test]
fn test_exploded_king_loses_castling_rights() {
    let pos = Atomic::from_setup(&fen("rnb1kbnr/pppppppp/8/4q3/8/8/PPPPPPPP/RNBQKBNR b KQkq - 0 1"))
        .ok()
        .expect("valid position");

    let pos = pos
        .play(&Move::Normal {
            role: Role::Queen,
            from: sq("e5"),
            to: sq("e2"),
            capture: Some(Role::Pawn),
            promotion: None,
        })
        .ok()
        .expect("Qxe2# is legal");

    assert_eq!(
        pos.castling_rights(),
        Bitboard::from_square(sq("a8")).union(Bitboard::from_square(sq("h8")))
    );
    assert_eq!(pos.castles().rook(Color::White, CastlingSide::QueenSide), None);
    assert_eq!(pos.castles().rook(Color::White, CastlingSide::KingSide), None);
    assert_eq!(pos.castles().rook(Color::Black, CastlingSide::QueenSide), Some(sq("a8")));
    assert_eq!(pos.castles().rook(Color::Black, CastlingSide::KingSide), Some(sq("h8")));
}

#[test]
fn test_racing_kings_end() {
    // Both players reached the backrank.
    let pos = RacingKings::from_setup(&fen("kr3NK1/1q2R3/8/8/8/5n2/2N5/1rb2B1R w - - 11 14"))
        .ok()
        .expect("valid position");
    assert!(pos.is_variant_end());
    assert_eq!(pos.variant_outcome(), Some(Outcome::Draw));

    // White to move is lost because black reached the backrank.
    let pos = RacingKings::from_setup(&fen("1k6/6K1/8/8/8/8/8/8 w - - 0 1"))
        .ok()
        .expect("valid position");
    assert!(pos.is_variant_end());
    assert_eq!(pos.variant_outcome(), Some(Outcome::Decisive { winner: Color::Black }));

    // Black is given a chance to catch up.
    let pos = RacingKings::from_setup(&fen("1K6/7k/8/8/8/8/8/8 b - - 0 1"))
        .ok()
        .expect("valid position");
    assert!(!pos.is_variant_end());
    assert_eq!(pos.variant_outcome(), None);

    // Black near backrank but cannot move there.
    let pos = RacingKings::from_setup(&fen("2KR4/k7/2Q5/4q3/8/8/8/2N5 b - - 0 1"))
        .ok()
        .expect("valid position");
    assert!(pos.is_variant_end());
    assert_eq!(pos.variant_outcome(), Some(Outcome::Decisive { winner: Color::White }));
}

#[test]
fn test_aligned_checkers() {
    let res = Chess::from_setup(&fen("2Nq4/2K5/1b6/8/7R/3k4/7P/8 w - - 0 1"));
    assert_eq!(
        res.err().expect("impossible check").kind(),
        PositionErrorKind::from_bits_truncate(PositionErrorKind::IMPOSSIBLE_CHECK)
    );
}

#[test]
fn test_default_positions_are_valid() {
    assert!(Chess::from_setup(&Chess::new()).is_ok());
    assert!(Atomic::from_setup(&Atomic::new()).is_ok());
    assert!(Antichess::from_setup(&Antichess::new()).is_ok());
    assert!(KingOfTheHill::from_setup(&KingOfTheHill::new()).is_ok());
    assert!(ThreeCheck::from_setup(&ThreeCheck::new()).is_ok());
    assert!(Crazyhouse::from_setup(&Crazyhouse::new()).is_ok());
    assert!(RacingKings::from_setup(&RacingKings::new()).is_ok());
    assert!(Horde::from_setup(&Horde::new()).is_ok());
}

#[test]
fn test_initial_legal_moves() {
    assert_eq!(Chess::new().legals().len(), 20);
    assert_eq!(Atomic::new().legals().len(), 20);
    assert_eq!(Antichess::new().legals().len(), 20);
    assert_eq!(KingOfTheHill::new().legals().len(), 20);
    assert_eq!(ThreeCheck::new().legals().len(), 20);
    assert_eq!(Crazyhouse::new().legals().len(), 20);
    assert_eq!(RacingKings::new().legals().len(), 21);
    assert_eq!(Horde::new().legals().len(), 8);
}

fn perft<P: Position + Copy>(pos: &P, depth: u32) -> u64 {
    if depth == 0 {
        return 1;
    }
    let mut nodes = 0;
    for m in pos.legals().to_vec() {
        let mut child = *pos;
        child.play_unchecked(&m);
        nodes += perft(&child, depth - 1);
    }
    nodes
}

#[test]
fn test_perft_chess() {
    let pos = Chess::new();
    assert_eq!(perft(&pos, 1), 20);
    assert_eq!(perft(&pos, 2), 400);
    assert_eq!(perft(&pos, 3), 8902);
}

#[test]
fn test_perft_kiwipete() {
    // Castling, en passant, promotions and pins in one position.
    let pos = Chess::from_setup(&fen(
        "r3k2r/p1ppqpb1/bn2pnp1/3PN3/1p2P3/2N2Q1p/PPPBBPPP/R3K2R w KQkq - 0 1",
    ))
    .ok()
    .expect("valid position");
    assert_eq!(perft(&pos, 1), 48);
    assert_eq!(perft(&pos, 2), 2039);
}

#[test]
fn test_perft_en_passant_pins() {
    let pos = Chess::from_setup(&fen("8/2p5/3p4/KP5r/1R3p1k/8/4P1P1/8 w - - 0 1"))
        .ok()
        .expect("valid position");
    assert_eq!(perft(&pos, 1), 14);
    assert_eq!(perft(&pos, 2), 191);
    assert_eq!(perft(&pos, 3), 2812);
}

#[test]
fn test_castles_of_default() {
    let castles = Castles::new();
    assert_eq!(castles.rook(Color::White, CastlingSide::KingSide), Some(sq("h1")));
    assert_eq!(castles.rook(Color::Black, CastlingSide::QueenSide), Some(sq("a8")));
    assert_eq!(castles.path(Color::White, CastlingSide::QueenSide), Bitboard(0xe));
    let from_setup = Castles::from_setup(&Chess::new()).ok().expect("rights of the start");
    assert_eq!(from_setup, castles);
}

#[test]
fn test_pocket_helpers() {
    let mut pockets = Material::new();
    pocket_of(&mut pockets, 'N');
    pocket_of(&mut pockets, 'p');
    assert_eq!(pockets.white, MaterialSide { knights: 1, ..MaterialSide::new() });
    assert_eq!(pockets.count(), 2);
}

fn flags(bits: u32) -> PositionErrorKind {
    PositionErrorKind::from_bits_truncate(bits)
}

fn chess(text: &str) -> Chess {
    Chess::from_setup(&fen(text)).ok().expect("valid position")
}

fn chess_error(text: &str) -> PositionErrorKind {
    Chess::from_setup(&fen(text)).err().expect("invalid position").kind()
}

#[test]
fn test_position_error_kinds() {
    assert_eq!(
        chess_error("8/8/8/8/8/8/8/8 w - - 0 1"),
        flags(PositionErrorKind::EMPTY_BOARD | PositionErrorKind::MISSING_KING)
    );
    assert_eq!(chess_error("8/8/8/8/8/8/8/K7 w - - 0 1"), flags(PositionErrorKind::MISSING_KING));
    assert_eq!(
        chess_error("k7/8/8/8/8/8/8/KK6 w - - 0 1"),
        flags(PositionErrorKind::TOO_MANY_KINGS)
    );
    assert_eq!(
        chess_error("k6P/8/8/8/8/8/8/K7 w - - 0 1"),
        flags(PositionErrorKind::PAWNS_ON_BACKRANK)
    );
    assert_eq!(
        chess_error("k7/8/8/8/8/8/8/K7 w K - 0 1"),
        flags(PositionErrorKind::BAD_CASTLING_RIGHTS)
    );
    assert_eq!(
        chess_error("k7/8/8/8/8/8/8/K6r b - - 0 1"),
        flags(PositionErrorKind::OPPOSITE_CHECK)
    );
    // Three pieces give check.
    assert_eq!(
        chess_error("k7/8/8/8/q7/8/2n5/K6r w - - 0 1"),
        flags(PositionErrorKind::IMPOSSIBLE_CHECK)
    );
    // The pawn that would be captured en passant is missing before d6.
    assert_eq!(
        chess_error("k7/8/8/4P3/8/8/8/K7 w - d6 0 1"),
        flags(PositionErrorKind::INVALID_EP_SQUARE)
    );
    // The en passant square is on the wrong rank.
    assert_eq!(
        chess_error("k7/8/8/8/3pP3/8/8/K7 w - d5 0 1"),
        flags(PositionErrorKind::INVALID_EP_SQUARE)
    );
    assert!(Chess::from_setup(&fen("k7/8/8/3pP3/8/8/8/K7 w - d6 0 1")).is_ok());
    // No pawn can capture on d6, and yet the square is one that a pawn has
    // just passed.
    assert!(Chess::from_setup(&fen("k7/8/8/3p4/8/8/8/K7 w - d6 0 1")).is_ok());
    // An en passant square on the wrong rank is refused, whether or not a
    // pawn could capture there.
    assert_eq!(
        chess_error("k7/8/8/3p4/8/8/8/K7 w - e3 0 1"),
        flags(PositionErrorKind::INVALID_EP_SQUARE)
    );
    assert_eq!(
        chess_error("rnbqkbnr/pppppppp/8/8/8/8/PPPPPPPP/RNBQKBNR w KQkq e4 0 1"),
        flags(PositionErrorKind::INVALID_EP_SQUARE)
    );
    // The square behind the en passant square is taken.
    assert_eq!(
        chess_error("k7/3n4/8/3p4/8/8/8/K7 w - d6 0 1"),
        flags(PositionErrorKind::INVALID_EP_SQUARE)
    );
    // The en passant square itself is taken.
    assert_eq!(
        chess_error("k7/8/3n4/3p4/8/8/8/K7 w - d6 0 1"),
        flags(PositionErrorKind::INVALID_EP_SQUARE)
    );
}

#[test]
fn test_position_error_kind_flags() {
    let both = flags(PositionErrorKind::EMPTY_BOARD | PositionErrorKind::VARIANT);
    assert_eq!(both.bits(), 257);
    assert!(both.empty_board);
    assert!(both.variant);
    assert!(!both.missing_king);
    assert!(!both.is_empty());
    assert!(PositionErrorKind::empty().is_empty());
    assert_eq!(PositionErrorKind::empty().bits(), 0);
    assert_eq!(flags(511).bits(), 511);
    assert_eq!(flags(1024 + 2), flags(2));
    assert!(both.contains(flags(PositionErrorKind::VARIANT)));
    assert!(!both.contains(flags(PositionErrorKind::MISSING_KING)));
    assert_eq!(both.minus(flags(PositionErrorKind::VARIANT)), flags(PositionErrorKind::EMPTY_BOARD));
    assert_eq!(flags(2).union(flags(4)), flags(6));
    for bit in 0..9 {
        assert_eq!(flags(1 << bit).bits(), 1 << bit);
    }
}

#[test]
fn test_ignore_bad_castling_rights() {
    let error = Chess::from_setup(&fen("k7/8/8/8/8/8/8/K7 w K - 0 1")).err().expect("bad rights");
    assert_eq!(error.message(), "illegal position");
    let pos = error.ignore_bad_castling_rights().ok().expect("only the rights were bad");
    assert_eq!(pos.castling_rights(), Bitboard(0));
    let error = Chess::from_setup(&fen("8/8/8/8/8/8/8/K7 w K - 0 1")).err().expect("no king");
    let error = error.ignore_bad_castling_rights().err().expect("the king is still missing");
    assert_eq!(error.kind(), flags(PositionErrorKind::MISSING_KING));
    assert!(error.strict().is_err());
}

#[test]
fn test_castling_rights_from_setup() {
    let pos = chess("r3k2r/8/8/8/8/8/8/R3K2R w KQkq - 0 1");
    assert_eq!(pos.castles().rook(Color::White, CastlingSide::KingSide), Some(sq("h1")));
    assert_eq!(pos.castles().rook(Color::White, CastlingSide::QueenSide), Some(sq("a1")));
    assert_eq!(pos.castles().path(Color::White, CastlingSide::KingSide), Bitboard(0x60));
    assert_eq!(pos.castles().path(Color::Black, CastlingSide::QueenSide), Bitboard(0xe << 56));
    assert!(pos.castles().has(Color::Black, CastlingSide::KingSide));
    assert!(pos.castles().has_side(Color::Black));
    assert!(pos.castles().any());
    assert!(!pos.castles().is_empty());
    assert_eq!(pos.castles().mode(), shakmaty::types::CastlingMode::Standard);
    // A king on f1 between rooks on b1 and g1.
    let pos = chess("4k3/8/8/8/8/8/8/1R3KR1 w KQ - 0 1");
    assert_eq!(pos.castles().rook(Color::White, CastlingSide::KingSide), Some(sq("g1")));
    assert_eq!(pos.castles().rook(Color::White, CastlingSide::QueenSide), Some(sq("b1")));
    assert_eq!(pos.castles().mode(), shakmaty::types::CastlingMode::Chess960);
    let mut moves = MoveList::new();
    pos.castling_moves(CastlingSide::KingSide, &mut moves);
    assert_eq!(moves.to_vec(), vec![Move::Castle { king: sq("f1"), rook: sq("g1") }]);
}

#[test]
fn test_castling_moves() {
    let pos = chess("r3k2r/8/8/8/8/8/8/R3K2R w KQkq - 0 1");
    let mut moves = MoveList::new();
    pos.castling_moves(CastlingSide::KingSide, &mut moves);
    assert_eq!(moves.to_vec(), vec![Move::Castle { king: sq("e1"), rook: sq("h1") }]);
    pos.castling_moves(CastlingSide::QueenSide, &mut moves);
    assert_eq!(moves.to_vec(), vec![Move::Castle { king: sq("e1"), rook: sq("a1") }]);
    let after = pos.play(&Move::Castle { king: sq("e1"), rook: sq("a1") }).ok().expect("legal");
    assert_eq!(after.board().piece_at(sq("c1")), Some(Color::White.king()));
    assert_eq!(after.board().piece_at(sq("d1")), Some(Color::White.rook()));
    assert_eq!(after.board().piece_at(sq("a1")), None);
    assert_eq!(after.board().piece_at(sq("e1")), None);
    assert!(!after.castles().has_side(Color::White));
    assert!(after.castles().has_side(Color::Black));
    assert_eq!(after.halfmoves(), 0);
    // The king may not pass an attacked square: a rook on f8 guards f1.
    let pos = chess("4kr2/8/8/8/8/8/8/R3K2R w KQ - 0 1");
    pos.castling_moves(CastlingSide::KingSide, &mut moves);
    assert!(moves.is_empty());
    pos.castling_moves(CastlingSide::QueenSide, &mut moves);
    assert_eq!(moves.len(), 1);
    // No castling out of check.
    let pos = chess("4r1k1/8/8/8/8/8/8/R3K2R w KQ - 0 1");
    pos.castling_moves(CastlingSide::QueenSide, &mut moves);
    assert!(moves.is_empty());
    // No castling with a piece in the way.
    let pos = chess("4k3/8/8/8/8/8/8/RN2K2R w KQ - 0 1");
    pos.castling_moves(CastlingSide::QueenSide, &mut moves);
    assert!(moves.is_empty());
}

#[test]
fn test_do_move_counters_and_en_passant_square() {
    let pos = Chess::new();
    let pos = pos.play(&normal(Role::Knight, "g1", "f3", None)).ok().expect("legal");
    assert_eq!(pos.turn(), Color::Black);
    assert_eq!(pos.halfmoves(), 1);
    assert_eq!(pos.fullmoves(), 1);
    let pos = pos.play(&normal(Role::Pawn, "d7", "d5", None)).ok().expect("legal");
    assert_eq!(pos.turn(), Color::White);
    assert_eq!(pos.halfmoves(), 0);
    assert_eq!(pos.fullmoves(), 2);
    // No white pawn can capture on d6.
    assert_eq!(pos.ep_square(), None);
    let pos = chess("k7/8/8/8/3p4/8/4P3/K7 w - - 0 1");
    let pos = pos.play(&normal(Role::Pawn, "e2", "e4", None)).ok().expect("legal");
    assert_eq!(pos.ep_square(), Some(sq("e3")));
    let mut moves = MoveList::new();
    pos.en_passant_moves(&mut moves);
    assert_eq!(moves.to_vec(), vec![Move::EnPassant { from: sq("d4"), to: sq("e3") }]);
    let pos = pos.play(&Move::EnPassant { from: sq("d4"), to: sq("e3") }).ok().expect("legal");
    assert_eq!(pos.board().piece_at(sq("e3")), Some(Color::Black.pawn()));
    assert_eq!(pos.board().piece_at(sq("e4")), None);
    assert_eq!(pos.board().piece_at(sq("d4")), None);
    assert_eq!(pos.ep_square(), None);
}

#[test]
fn test_do_move_castling_rights_and_promotion() {
    let pos = chess("r3k2r/1P6/8/8/8/8/8/R3K2R w KQkq - 0 1");
    let rook_move = pos.play(&normal(Role::Rook, "h1", "h2", None)).ok().expect("legal");
    assert_eq!(rook_move.castles().rook(Color::White, CastlingSide::KingSide), None);
    assert_eq!(rook_move.castles().rook(Color::White, CastlingSide::QueenSide), Some(sq("a1")));
    let king_move = pos.play(&normal(Role::King, "e1", "e2", None)).ok().expect("legal");
    assert!(!king_move.castles().has_side(Color::White));
    let capture = Move::Normal {
        role: Role::Pawn,
        from: sq("b7"),
        capture: Some(Role::Rook),
        to: sq("a8"),
        promotion: Some(Role::Knight),
    };
    let promoted = pos.play(&capture).ok().expect("legal");
    assert_eq!(promoted.castles().rook(Color::Black, CastlingSide::QueenSide), None);
    assert_eq!(promoted.castles().rook(Color::Black, CastlingSide::KingSide), Some(sq("h8")));
    assert_eq!(promoted.board().piece_at(sq("a8")), Some(Color::White.knight()));
    assert!(promoted.board().promoted().contains(sq("a8")));
    assert_eq!(promoted.board().piece_at(sq("b7")), None);
    let mut moves = MoveList::new();
    pos.promotion_moves(&mut moves);
    assert_eq!(moves.len(), 8);
    pos.capture_moves(&mut moves);
    assert!(moves.to_vec().iter().all(|m| m.is_capture()));
    assert_eq!(moves.len(), 6);
}

#[test]
fn test_illegal_move_leaves_the_position() {
    let pos = Chess::new();
    let illegal = normal(Role::Knight, "g1", "g3", None);
    assert!(!pos.is_legal(&illegal));
    let back = pos.play(&illegal).err().expect("illegal move");
    assert_eq!(back.board(), pos.board());
    assert_eq!(back.turn(), pos.turn());
    assert_eq!(back.castles(), pos.castles());
    assert_eq!(back.ep_square(), pos.ep_square());
    assert_eq!(back.halfmoves(), pos.halfmoves());
    assert_eq!(back.fullmoves(), pos.fullmoves());
    assert!(pos.is_legal(&normal(Role::Knight, "g1", "f3", None)));
    assert!(!pos.is_legal(&Move::Castle { king: sq("e1"), rook: sq("h1") }));
    assert!(!pos.is_legal(&Move::Put { role: Role::Pawn, to: sq("e4") }));
    assert!(!pos.is_legal(&Move::EnPassant { from: sq("e2"), to: sq("d3") }));
}

fn check_invariants<P: Position + Copy>(pos: &P, depth: u32, promoting_kings: bool) {
    let board = pos.board();
    assert_eq!(board.white().0 & board.black().0, 0);
    assert_eq!(board.occupied().0, board.white().0 | board.black().0);
    let roles = [
        board.pawns(),
        board.knights(),
        board.bishops(),
        board.rooks(),
        board.queens(),
        board.kings(),
    ];
    let mut seen = 0;
    for role in roles {
        assert_eq!(seen & role.0, 0);
        seen |= role.0;
    }
    assert_eq!(seen, board.occupied().0);
    assert_eq!(board.promoted().0 & !board.occupied().0, 0);
    if !promoting_kings {
        assert!(!(board.kings() & board.white()).more_than_one());
        assert!(!(board.kings() & board.black()).more_than_one());
    }
    assert_eq!(board.pawns().0 & board.black().0 & BACKRANKS, 0);
    let moves = pos.legals().to_vec();
    for (i, m) in moves.iter().enumerate() {
        assert!(!moves[i + 1..].contains(m), "{:?} comes twice", m);
        assert!(pos.is_legal(m), "{:?}", m);
    }
    if depth > 0 {
        for m in moves {
            let mut child = *pos;
            child.play_unchecked(&m);
            check_invariants(&child, depth - 1, promoting_kings);
        }
    }
}

#[test]
fn test_invariants_of_reachable_positions() {
    check_invariants(&Chess::new(), 2, false);
    check_invariants(&Atomic::new(), 2, false);
    check_invariants(&Antichess::new(), 2, true);
    check_invariants(&KingOfTheHill::new(), 2, false);
    check_invariants(&ThreeCheck::new(), 2, false);
    check_invariants(&Crazyhouse::new(), 2, false);
    check_invariants(&RacingKings::new(), 2, false);
    check_invariants(&Horde::new(), 2, false);
    check_invariants(
        &chess("r3k2r/p1ppqpb1/bn2pnp1/3PN3/1p2P3/2N2Q1p/PPPBBPPP/R3K2R w KQkq - 0 1"),
        1,
        false,
    );
}

#[test]
fn test_check_and_game_end() {
    let pos = Chess::new();
    assert!(!pos.is_check());
    assert!(!pos.is_checkmate());
    assert!(!pos.is_stalemate());
    assert!(!pos.is_game_over());
    assert!(!pos.is_insufficient_material());
    assert_eq!(pos.outcome(), None);
    assert!(!pos.is_variant_end());
    assert_eq!(pos.variant_outcome(), None);
    assert_eq!(pos.checkers(), Bitboard(0));
    // The fool's mate.
    let mate = chess("rnb1kbnr/pppp1ppp/8/4p3/6Pq/5P2/PPPPP2P/RNBQKBNR w KQkq - 1 3");
    assert!(mate.is_check());
    assert_eq!(mate.checkers(), Bitboard::from_square(sq("h4")));
    assert!(mate.is_checkmate());
    assert!(mate.is_game_over());
    assert_eq!(mate.outcome(), Some(Outcome::Decisive { winner: Color::Black }));
    assert_eq!(mate.outcome().and_then(|o| o.winner()), Some(Color::Black));
    assert_eq!(Outcome::Draw.winner(), None);
    assert_eq!(Outcome::Draw.notation(), "1/2-1/2");
    assert_eq!(Outcome::Decisive { winner: Color::White }.notation(), "1-0");
    assert_eq!(Outcome::Decisive { winner: Color::Black }.notation(), "0-1");
    let stalemate = chess("k7/8/1Q6/8/8/8/8/K7 b - - 0 1");
    assert!(stalemate.is_stalemate());
    assert!(!stalemate.is_checkmate());
    assert_eq!(stalemate.outcome(), Some(Outcome::Draw));
    let bare = chess("k7/8/8/8/8/8/8/K7 w - - 0 1");
    assert!(bare.is_insufficient_material());
    assert!(bare.is_game_over());
    assert_eq!(bare.outcome(), Some(Outcome::Draw));
}

#[test]
fn test_evasions() {
    // A knight gives check: capture it or move the king.
    let pos = chess("k7/8/8/8/8/1n6/P7/K7 w - - 0 1");
    let moves = pos.legals().to_vec();
    assert!(moves.contains(&normal(Role::Pawn, "a2", "b3", Some(Role::Knight))));
    assert!(moves.contains(&normal(Role::King, "a1", "b1", None)));
    assert!(moves.contains(&normal(Role::King, "a1", "b2", None)));
    assert!(!moves.contains(&normal(Role::Pawn, "a2", "a3", None)));
    assert_eq!(moves.len(), 3);
    // A rook gives check along the first rank: block, capture or step aside.
    let pos = chess("k7/8/8/8/8/8/3R4/K6r w - - 0 1");
    let moves = pos.legals().to_vec();
    assert!(moves.contains(&normal(Role::Rook, "d2", "d1", None)));
    assert!(moves.contains(&normal(Role::King, "a1", "a2", None)));
    assert!(moves.contains(&normal(Role::King, "a1", "b2", None)));
    assert!(!moves.contains(&normal(Role::King, "a1", "b1", None)));
    assert_eq!(moves.len(), 3);
    // In a double check only the king moves.
    let pos = chess("k7/8/8/8/8/1n6/3R4/K6r w - - 0 1");
    assert!(!pos.legals().is_empty());
    assert!(pos.legals().to_vec().iter().all(|m| m.role() == Role::King));
}

#[test]
fn test_en_passant_that_uncovers_the_king() {
    // Both pawns leave the fifth rank, and the rook on h5 sees the king.
    let pos = chess("8/8/8/K2pP2r/8/8/8/7k w - d6 0 1");
    let mut moves = MoveList::new();
    pos.en_passant_moves(&mut moves);
    assert!(moves.is_empty());
    assert_eq!(pos.ep_square(), None);
    assert!(!pos.legals().to_vec().iter().any(|m| m.is_en_passant()));
}

#[test]
fn test_irreversible_moves() {
    let pos = chess("r3k2r/8/8/8/8/8/1P6/R3K1NR w KQkq - 0 1");
    assert!(pos.is_irreversible(&normal(Role::Pawn, "b2", "b3", None)));
    assert!(pos.is_irreversible(&normal(Role::Rook, "a1", "a2", None)));
    assert!(pos.is_irreversible(&normal(Role::King, "e1", "e2", None)));
    assert!(pos.is_irreversible(&normal(Role::Rook, "a1", "a8", Some(Role::Rook))));
    assert!(pos.is_irreversible(&Move::Castle { king: sq("e1"), rook: sq("a1") }));
    assert!(!pos.is_irreversible(&normal(Role::Knight, "g1", "f3", None)));
    let quiet = chess("4k3/8/8/8/8/8/8/4K1N1 w - - 0 1");
    assert!(!quiet.is_irreversible(&normal(Role::King, "e1", "e2", None)));
    assert!(!quiet.gives_check(&normal(Role::Knight, "g1", "f3", None)));
    let checking = chess("4k3/8/8/8/8/8/8/4K2R w - - 0 1");
    assert!(checking.gives_check(&normal(Role::Rook, "h1", "h8", None)));
}

#[test]
fn test_swap_turn() {
    let pos = Chess::new().swap_turn().ok().expect("nobody is in check");
    assert_eq!(pos.turn(), Color::Black);
    assert_eq!(pos.legals().len(), 20);
    // Black is in check, so white may not move again.
    let pos = chess("4k3/8/8/8/8/8/8/4K2R w - - 0 1");
    let pos = pos.play(&normal(Role::Rook, "h1", "h8", None)).ok().expect("legal");
    let error = pos.swap_turn().err().expect("black is in check");
    assert_eq!(error.kind(), flags(PositionErrorKind::OPPOSITE_CHECK));
}

#[test]
fn test_atomic() {
    let pos = Atomic::from_setup(&fen("rnbqkbnr/pppppppp/8/8/8/5N2/PPPPPPPP/RNBQKB1R w KQkq - 0 1"))
        .ok()
        .expect("valid position");
    let pos = pos.play(&normal(Role::Knight, "f3", "e5", None)).ok().expect("legal");
    let pos = pos.play(&normal(Role::Pawn, "a7", "a6", None)).ok().expect("legal");
    // The knight takes on f7 and explodes with all pieces around f7: the
    // black king is gone.
    let capture = normal(Role::Knight, "e5", "f7", Some(Role::Pawn));
    let pos = pos.play(&capture).ok().expect("legal");
    assert_eq!(pos.board().piece_at(sq("f7")), None);
    assert_eq!(pos.board().piece_at(sq("e8")), None);
    assert_eq!(pos.board().piece_at(sq("d8")), Some(Color::Black.queen()));
    assert_eq!(pos.board().piece_at(sq("f8")), None);
    assert_eq!(pos.board().piece_at(sq("g8")), None);
    // Pawns beside the explosion stay.
    assert_eq!(pos.board().piece_at(sq("e7")), Some(Color::Black.pawn()));
    assert_eq!(pos.board().piece_at(sq("g7")), Some(Color::Black.pawn()));
    assert!(pos.is_variant_end());
    assert_eq!(pos.variant_outcome(), Some(Outcome::Decisive { winner: Color::White }));
    assert_eq!(pos.outcome(), Some(Outcome::Decisive { winner: Color::White }));
    assert!(!pos.castles().has_side(Color::Black));
    // A position with an exploded king is a valid setup.
    assert!(Atomic::from_setup(&pos).is_ok());
    // Kings that touch do not give check.
    let pos = Atomic::from_setup(&fen("8/8/8/8/8/8/3kq3/3K4 w - - 0 1")).ok().expect("valid");
    assert!(!pos.is_check());
    assert_eq!(
        pos.king_attackers(sq("d1"), Color::Black, pos.board().occupied()),
        Bitboard(0)
    );
    // A king may not capture.
    assert!(!pos.is_legal(&normal(Role::King, "d1", "e2", Some(Role::Queen))));
}

#[test]
fn test_antichess() {
    let pos = Antichess::new();
    assert_eq!(pos.castling_rights(), Bitboard(0));
    let pos = pos.play(&normal(Role::Pawn, "e2", "e4", None)).ok().expect("legal");
    let pos = pos.play(&normal(Role::Pawn, "d7", "d5", None)).ok().expect("legal");
    // The capture is compulsory.
    assert_eq!(pos.legals().to_vec(), vec![normal(Role::Pawn, "e4", "d5", Some(Role::Pawn))]);
    let mut moves = MoveList::new();
    pos.capture_moves(&mut moves);
    assert_eq!(moves.len(), 1);
    // Pawns may become kings, and kings may be captured.
    let pos = Antichess::from_setup(&fen("8/P7/8/8/8/8/8/7k w - - 0 1")).ok().expect("valid");
    let promotions = pos.legals().to_vec();
    assert_eq!(promotions.len(), 5);
    assert!(promotions.contains(&Move::Normal {
        role: Role::Pawn,
        from: sq("a7"),
        capture: None,
        to: sq("a8"),
        promotion: Some(Role::King),
    }));
    assert!(!pos.is_check());
    // The side that has lost all its pieces has won.
    let pos = Antichess::from_setup(&fen("8/8/8/8/8/8/8/7k w - - 0 1")).ok().expect("valid");
    assert!(pos.is_variant_end());
    assert_eq!(pos.variant_outcome(), Some(Outcome::Decisive { winner: Color::White }));
    // So has the side that cannot move.
    let pos = Antichess::from_setup(&fen("8/8/8/8/8/7p/7P/8 w - - 0 1")).ok().expect("valid");
    assert!(!pos.is_variant_end());
    assert_eq!(pos.variant_outcome(), Some(Outcome::Decisive { winner: Color::White }));
    let error = Antichess::from_setup(&fen("4k3/8/8/8/8/8/8/4K2R w K - 0 1")).err().expect("rights");
    assert_eq!(error.kind(), flags(PositionErrorKind::BAD_CASTLING_RIGHTS));
}

#[test]
fn test_king_of_the_hill() {
    let pos = KingOfTheHill::from_setup(&fen("8/8/8/3k4/8/8/8/K7 w - - 0 1")).ok().expect("valid");
    assert!(pos.is_variant_end());
    assert_eq!(pos.variant_outcome(), Some(Outcome::Decisive { winner: Color::Black }));
    assert!(pos.legals().is_empty());
    let mut moves = MoveList::new();
    pos.san_candidates(Role::King, sq("a2"), &mut moves);
    assert!(moves.is_empty());
    let pos = KingOfTheHill::from_setup(&fen("8/8/8/8/8/3K4/8/k7 w - - 0 1")).ok().expect("valid");
    assert!(!pos.is_variant_end());
    let pos = pos.play(&normal(Role::King, "d3", "e4", None)).ok().expect("legal");
    assert_eq!(pos.outcome(), Some(Outcome::Decisive { winner: Color::White }));
}

#[test]
fn test_three_check() {
    let pos = ThreeCheck::from_setup(&fen("4k3/8/8/8/8/8/8/4K2R w - - 3+3 0 1")).ok().expect("valid");
    assert_eq!(pos.remaining_checks(), Some(RemainingChecks { white: 3, black: 3 }));
    assert!(pos.is_irreversible(&normal(Role::Rook, "h1", "h8", None)));
    assert!(!pos.is_irreversible(&normal(Role::Rook, "h1", "h7", None)));
    let pos = pos.play(&normal(Role::Rook, "h1", "h8", None)).ok().expect("legal");
    assert_eq!(pos.remaining_checks(), Some(RemainingChecks { white: 2, black: 3 }));
    let pos = ThreeCheck::from_setup(&fen("4k3/8/8/8/8/8/8/4K2R w - - 1+3 0 1")).ok().expect("valid");
    let pos = pos.play(&normal(Role::Rook, "h1", "h8", None)).ok().expect("legal");
    assert!(pos.is_variant_end());
    assert_eq!(pos.variant_outcome(), Some(Outcome::Decisive { winner: Color::White }));
    assert!(pos.legals().is_empty());
    let error = ThreeCheck::from_setup(&fen("4k3/8/8/8/8/8/8/4K3 w - - 0+0 0 1"))
        .err()
        .expect("nobody has a check left");
    assert_eq!(error.kind(), flags(PositionErrorKind::VARIANT));
}

#[test]
fn test_crazyhouse() {
    let pos = Crazyhouse::from_setup(&fen("4k3/8/8/8/8/8/8/4K3[Np] w - - 0 1")).ok().expect("valid");
    assert_eq!(pos.our_pocket().knights, 1);
    assert_eq!(pos.pockets().map(|p| p.count()), Some(2));
    let moves = pos.legals().to_vec();
    // Five king moves and a knight on each of the 62 empty squares.
    assert_eq!(moves.len(), 5 + 62);
    let drop = Move::Put { role: Role::Knight, to: sq("d6") };
    assert!(pos.is_legal(&drop));
    assert!(!pos.is_legal(&Move::Put { role: Role::Queen, to: sq("d6") }));
    assert!(!pos.is_irreversible(&drop));
    let pos = pos.play(&drop).ok().expect("legal");
    assert_eq!(pos.board().piece_at(sq("d6")), Some(Color::White.knight()));
    assert_eq!(pos.pockets().map(|p| p.white.knights), Some(0));
    // Black is in check by the knight: drops do not help against it, and
    // pawns are not dropped on the first and last rank anyway.
    assert_eq!(pos.legal_put_squares(), Bitboard(0));
    assert!(pos.legals().to_vec().iter().all(|m| m.role() == Role::King));
    // A captured piece goes to the pocket, a promoted one as a pawn.
    let pos = Crazyhouse::from_setup(&fen("3q~3k/8/8/8/8/8/8/3RK3 w - - 0 1")).ok().expect("valid");
    let pos = pos
        .play(&normal(Role::Rook, "d1", "d8", Some(Role::Queen)))
        .ok()
        .expect("legal");
    assert_eq!(pos.pockets().map(|p| p.white.pawns), Some(1));
    assert_eq!(pos.pockets().map(|p| p.white.queens), Some(0));
    let pawn_drops = Crazyhouse::from_setup(&fen("4k3/8/8/8/8/8/8/4K3[P] w - - 0 1"))
        .ok()
        .expect("valid");
    assert!(!pawn_drops.is_legal(&Move::Put { role: Role::Pawn, to: sq("a8") }));
    assert!(!pawn_drops.is_legal(&Move::Put { role: Role::Pawn, to: sq("a1") }));
    assert!(pawn_drops.is_legal(&Move::Put { role: Role::Pawn, to: sq("a2") }));
    let error = Crazyhouse::from_setup(&fen("4k3/8/8/8/8/8/8/4K3[K] w - - 0 1"))
        .err()
        .expect("a king in the pocket");
    assert_eq!(error.kind(), flags(PositionErrorKind::TOO_MANY_KINGS));
}

#[test]
fn test_racing_kings() {
    let pos = RacingKings::new();
    assert_eq!(pos.ep_square(), None);
    assert_eq!(pos.castling_rights(), Bitboard(0));
    // No move may give check.
    let pos = RacingKings::from_setup(&fen("8/8/8/8/8/8/k7/2RK4 w - - 0 1")).ok().expect("valid");
    assert!(!pos.is_legal(&normal(Role::Rook, "c1", "a1", None)));
    assert!(!pos.is_legal(&normal(Role::Rook, "c1", "c2", None)));
    assert!(pos.is_legal(&normal(Role::Rook, "c1", "c3", None)));
    let error = RacingKings::from_setup(&fen("8/8/8/8/8/8/k7/R2K3P w - - 0 1"))
        .err()
        .expect("a pawn and a check");
    assert_eq!(
        error.kind(),
        flags(
            PositionErrorKind::VARIANT
                | PositionErrorKind::OPPOSITE_CHECK
                | PositionErrorKind::PAWNS_ON_BACKRANK
        )
    );
    let error = RacingKings::from_setup(&fen("8/8/8/8/8/8/k7/R2K4 b - - 0 1"))
        .err()
        .expect("a check");
    assert_eq!(error.kind(), flags(PositionErrorKind::IMPOSSIBLE_CHECK));
    let error = RacingKings::from_setup(&fen("8/8/8/8/8/8/k7/3K4 w Q e3 0 1"))
        .err()
        .expect("castling rights and an en passant square");
    assert_eq!(
        error.kind(),
        flags(PositionErrorKind::BAD_CASTLING_RIGHTS | PositionErrorKind::INVALID_EP_SQUARE)
    );
}

#[test]
fn test_horde() {
    let pos = Horde::new();
    assert!(!pos.castles().has_side(Color::White));
    assert!(pos.castles().has_side(Color::Black));
    assert!(!pos.is_variant_end());
    // A pawn on the first rank may take two steps.
    let pos = Horde::from_setup(&fen("4k3/8/8/8/8/8/8/P7 w - - 0 1")).ok().expect("valid");
    let moves = pos.legals().to_vec();
    assert!(moves.contains(&normal(Role::Pawn, "a1", "a2", None)));
    assert!(moves.contains(&normal(Role::Pawn, "a1", "a3", None)));
    assert_eq!(moves.len(), 2);
    // The horde is gone.
    let pos = Horde::from_setup(&fen("4k3/8/8/8/8/8/8/8 w - - 0 1")).ok().expect("valid");
    assert!(pos.is_variant_end());
    assert_eq!(pos.variant_outcome(), Some(Outcome::Decisive { winner: Color::Black }));
    let error = Horde::from_setup(&fen("4k3/8/8/8/8/8/8/4K3 w - - 0 1")).err().expect("two kings");
    assert_eq!(error.kind(), flags(PositionErrorKind::VARIANT));
    let error = Horde::from_setup(&fen("8/8/8/8/8/8/8/P7 w - - 0 1")).err().expect("no king");
    assert_eq!(error.kind(), flags(PositionErrorKind::MISSING_KING));
    // Only the side without a king may have pawns on its first rank.
    let error = Horde::from_setup(&fen("3pk3/8/8/8/8/8/8/P7 w - - 0 1")).err().expect("d8");
    assert_eq!(error.kind(), flags(PositionErrorKind::PAWNS_ON_BACKRANK));
    let error = Horde::from_setup(&fen("4k3/8/8/8/8/8/8/p7 w - - 0 1")).err().expect("a1");
    assert_eq!(error.kind(), flags(PositionErrorKind::PAWNS_ON_BACKRANK));
    let error = Horde::from_setup(&fen("P3k3/8/8/8/8/8/8/8 w - - 0 1")).err().expect("a8");
    assert_eq!(error.kind(), flags(PositionErrorKind::PAWNS_ON_BACKRANK));
    assert!(Horde::from_setup(&fen("p7/8/8/8/8/8/8/4K3 w - - 0 1")).is_ok());
}

fn check_kings<P: Position + Copy>(pos: &P, depth: u32) {
    let before = pos.board();
    let mover = pos.turn();
    for m in pos.legals().to_vec() {
        let mut child = *pos;
        child.play_unchecked(&m);
        let board = child.board();
        for color in [Color::White, Color::Black] {
            assert_eq!(
                (board.kings() & board.by_color(color)).count(),
                (before.kings() & before.by_color(color)).count(),
                "{:?}",
                m
            );
        }
        if let Some(king) = board.king_of(mover) {
            let attackers = board.attacks_to(king, mover.other(), board.occupied());
            assert!(attackers.is_empty(), "{:?} leaves the king in check", m);
        }
        if depth > 0 {
            check_kings(&child, depth - 1);
        }
    }
}

#[test]
fn test_legal_moves_leave_the_king_out_of_check() {
    check_kings(&Chess::new(), 2);
    check_kings(&KingOfTheHill::new(), 1);
    check_kings(&ThreeCheck::new(), 1);
    check_kings(&Crazyhouse::new(), 1);
    check_kings(&Horde::new(), 1);
    // Pins, checks, castling and en passant.
    check_kings(
        &chess("r3k2r/p1ppqpb1/bn2pnp1/3PN3/1p2P3/2N2Q1p/PPPBBPPP/R3K2R w KQkq - 0 1"),
        1,
    );
    check_kings(&chess("8/2p5/3p4/KP5r/1R3p1k/8/4P1P1/8 w - - 0 1"), 2);
    check_kings(&chess("r3k2r/Pppp1ppp/1b3nbN/nP6/BBP1P3/q4N2/Pp1P2PP/R2Q1RK1 w kq - 0 1"), 1);
    check_kings(&chess("rnbq1k1r/pp1Pbppp/2p5/8/2B5/8/PPP1NnPP/RNBQK2R w KQ - 1 8"), 1);
    // A double check and a check by a pawn that can be captured en passant.
    check_kings(&chess("4k3/8/8/8/8/5n2/4r3/4K3 w - - 0 1"), 0);
    check_kings(&chess("8/8/8/2k5/3Pp3/8/8/4K3 b - d3 0 1"), 1);
}

#[test]
fn test_horde_keeps_one_black_king() {
    let pos = Horde::new();
    let board = pos.board();
    assert_eq!((board.kings() & board.black()).count(), 1);
    assert_eq!((board.kings() & board.white()).count(), 0);
    check_kings(&pos, 2);
}

/// The moves of the pieces, found square by square without any test for
/// the king: en passant and castling are left out.
fn piece_moves_by_hand<P: Position>(pos: &P) -> Vec<Move> {
    let board = pos.board();
    let turn = pos.turn();
    let us = board.by_color(turn);
    let them = board.by_color(turn.other());
    let occupied = board.occupied();
    let mut found = Vec::new();
    for index in 0..64u8 {
        let from = Square::new(index).expect("square");
        let piece = match board.piece_at(from) {
            Some(piece) if piece.color == turn => piece,
            _ => continue,
        };
        if piece.role != Role::Pawn {
            let targets = shakmaty::attacks::attacks(from, piece, occupied);
            for t in 0..64u8 {
                let to = Square::new(t).expect("square");
                if targets.contains(to) && !us.contains(to) {
                    found.push(Move::Normal {
                        role: piece.role,
                        from,
                        capture: board.role_at(to),
                        to,
                        promotion: None,
                    });
                }
            }
            continue;
        }
        let ahead: i8 = if turn == Color::White { 8 } else { -8 };
        let last: u8 = if turn == Color::White { 7 } else { 0 };
        let mut targets: Vec<(Square, Option<Role>)> = Vec::new();
        let captures = shakmaty::attacks::pawn_attacks(turn, from);
        for t in 0..64u8 {
            let to = Square::new(t).expect("square");
            if captures.contains(to) && them.contains(to) {
                targets.push((to, board.role_at(to)));
            }
        }
        if let Some(one) = from.offset(ahead) {
            if !occupied.contains(one) {
                targets.push((one, None));
                let rank = from.index() / 8;
                let home = if turn == Color::White { rank <= 1 } else { rank >= 6 };
                if let Some(two) = one.offset(ahead) {
                    if home && !occupied.contains(two) {
                        targets.push((two, None));
                    }
                }
            }
        }
        for (to, capture) in targets {
            if to.index() / 8 == last {
                for promotion in [Role::Queen, Role::Rook, Role::Bishop, Role::Knight] {
                    found.push(Move::Normal {
                        role: Role::Pawn,
                        from,
                        capture,
                        to,
                        promotion: Some(promotion),
                    });
                }
            } else {
                found.push(Move::Normal { role: Role::Pawn, from, capture, to, promotion: None });
            }
        }
    }
    found
}

fn check_exact<P: Position + Copy>(pos: &P, depth: u32) {
    let legal = pos.legals().to_vec();
    let mover = pos.turn();
    let by_hand = piece_moves_by_hand(pos);
    for m in &by_hand {
        let mut child = *pos;
        child.play_unchecked(m);
        let board = child.board();
        let safe = match board.king_of(mover) {
            Some(king) => board.attacks_to(king, mover.other(), board.occupied()).is_empty(),
            None => true,
        };
        assert_eq!(legal.contains(m), safe, "{:?}", m);
    }
    for m in &legal {
        if let Move::Normal { .. } = m {
            assert!(by_hand.contains(m), "{:?}", m);
        }
    }
    if depth > 0 {
        for m in legal {
            let mut child = *pos;
            child.play_unchecked(&m);
            check_exact(&child, depth - 1);
        }
    }
}

#[test]
fn test_legal_moves_are_the_safe_moves_of_the_pieces() {
    check_exact(&Chess::new(), 2);
    check_exact(&Horde::new(), 1);
    check_exact(&Crazyhouse::new(), 1);
    check_exact(
        &chess("r3k2r/p1ppqpb1/bn2pnp1/3PN3/1p2P3/2N2Q1p/PPPBBPPP/R3K2R w KQkq - 0 1"),
        1,
    );
    check_exact(&chess("8/2p5/3p4/KP5r/1R3p1k/8/4P1P1/8 w - - 0 1"), 2);
    check_exact(&chess("r3k2r/Pppp1ppp/1b3nbN/nP6/BBP1P3/q4N2/Pp1P2PP/R2Q1RK1 w kq - 0 1"), 1);
    check_exact(&chess("rnbq1k1r/pp1Pbppp/2p5/8/2B5/8/PPP1NnPP/RNBQK2R w KQ - 1 8"), 1);
    check_exact(&chess("4k3/8/8/8/8/5n2/4r3/4K3 w - - 0 1"), 0);
    check_exact(&chess("R6R/3Q4/1Q4Q1/4Q3/2Q4Q/Q4Q2/pp1Q4/kBNN1KB1 w - - 0 1"), 0);
    check_exact(&chess("3r3K/6PP/8/8/8/2k5/8/8 w - - 0 1"), 1);
}

fn check_racing(pos: &RacingKings, depth: u32) {
    let legal = pos.legals().to_vec();
    let by_hand = piece_moves_by_hand(pos);
    for m in &by_hand {
        let mut child = *pos;
        child.play_unchecked(m);
        let board = child.board();
        let mut safe = !pos.is_variant_end();
        for color in [Color::White, Color::Black] {
            if let Some(king) = board.king_of(color) {
                if !board.attacks_to(king, color.other(), board.occupied()).is_empty() {
                    safe = false;
                }
            }
        }
        assert_eq!(legal.contains(m), safe, "{:?}", m);
    }
    for m in &legal {
        assert!(by_hand.contains(m), "{:?}", m);
    }
    if depth > 0 {
        for m in legal {
            let mut child = *pos;
            child.play_unchecked(&m);
            check_racing(&child, depth - 1);
        }
    }
}

#[test]
fn test_racing_kings_moves_are_safe_and_give_no_check() {
    check_racing(&RacingKings::new(), 2);
    check_kings(&RacingKings::new(), 2);
}

#[test]
fn test_en_passant_in_a_check_that_no_game_reaches() {
    // The en passant square says that white has just moved its pawn two
    // squares, and yet the knight gives check: no game leads here. En
    // passant captures are tested against rooks, bishops and queens only,
    // so the capture is found although the knight still gives check.
    let pos = chess("4k3/8/5N2/8/3pP3/8/8/4K3 b - e3 0 1");
    let capture = Move::EnPassant { from: sq("d4"), to: sq("e3") };
    assert!(pos.legals().to_vec().contains(&capture));
    // After a real double step the capture is found only where it is legal.
    let mut game = chess("4k3/8/8/8/3p4/8/4P3/4K3 w - - 0 1");
    game.play_unchecked(&Move::Normal {
        role: Role::Pawn,
        from: sq("e2"),
        capture: None,
        to: sq("e4"),
        promotion: None,
    });
    assert!(game.legals().to_vec().contains(&capture));
    check_kings(&game, 1);
}

#[test]
fn test_en_passant_square_as_it_is_set() {
    // No white pawn can capture on d6: the square is kept as it was set,
    // and not shown among what a setup holds.
    let pos = chess("k7/8/8/3p4/8/8/8/K7 w - d6 0 1");
    assert_eq!(pos.maybe_ep_square(), Some(sq("d6")));
    assert_eq!(pos.ep_square(), None);
    // With a pawn beside the black pawn both show the square.
    let pos = chess("k7/8/8/3pP3/8/8/8/K7 w - d6 0 1");
    assert_eq!(pos.maybe_ep_square(), Some(sq("d6")));
    assert_eq!(pos.ep_square(), Some(sq("d6")));
    assert_eq!(RacingKings::new().maybe_ep_square(), None);
    // The starting position with an en passant square on the fourth rank.
    let error = Chess::from_setup(&fen("rnbqkbnr/pppppppp/8/8/8/8/PPPPPPPP/RNBQKBNR w KQkq e4 0 1"))
        .err()
        .expect("invalid position");
    assert!(error.kind().contains(flags(PositionErrorKind::INVALID_EP_SQUARE)));
}
