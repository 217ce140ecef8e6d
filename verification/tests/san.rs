use shakmaty::antichess::Antichess;
use shakmaty::atomic::Atomic;
use shakmaty::color::Color;
use shakmaty::crazyhouse::Crazyhouse;
use shakmaty::horde::Horde;
use shakmaty::king_of_the_hill::KingOfTheHill;
use shakmaty::position::{Chess, FromSetup, Position};
use shakmaty::racing_kings::RacingKings;
use shakmaty::san::{san, san_plus, InvalidSan, San, SanError, SanPlus};
use shakmaty::setup::PlainSetup;
use shakmaty::square::{File, Rank, Square};
use shakmaty::three_check::ThreeCheck;
use shakmaty::types::{Move, Piece, Role};

fn sq(name: &str) -> Square {
    Square::from_bytes(name.as_bytes()).expect("valid square")
}

#[test]
fn test_read_write() {
    for san in &[
        "e4", "b6", "hxg7", "N2c4", "Red3", "Qh1=K", "d1=N", "@e4#", "K@b3", "Ba5", "Bba5",
        "Ra1a8", "--", "O-O", "O-O-O+",
    ] {
        assert_eq!(san.parse::<SanPlus>().expect("valid san").to_string(), *san);
    }
}

#[test]
fn test_parse_san_move_complicated() {
    assert_eq!(
        San::from_bytes(b"bxc1=R+"),
        Ok(San::Normal {
            role: Role::Pawn,
            file: Some(File::B),
            rank: None,
            capture: true,
            to: sq("c1"),
            promotion: Some(Role::Rook),
        })
    );
}

#[test]
fn test_parse_suffixes() {
    let plus = SanPlus::from_bytes(b"Qh5+").expect("valid san");
    assert!(plus.check);
    assert!(!plus.checkmate);
    let mate = SanPlus::from_bytes(b"Qxf7#").expect("valid san");
    assert!(!mate.check);
    assert!(mate.checkmate);
    assert_eq!(
        mate.san,
        San::Normal {
            role: Role::Queen,
            file: None,
            rank: None,
            capture: true,
            to: sq("f7"),
            promotion: None,
        }
    );
    assert_eq!(mate.to_bytes(), b"Qxf7#".to_vec());
}

#[test]
fn test_parse_disambiguation() {
    assert_eq!(
        San::from_bytes(b"R1a3"),
        Ok(San::Normal {
            role: Role::Rook,
            file: None,
            rank: Some(Rank::First),
            capture: false,
            to: sq("a3"),
            promotion: None,
        })
    );
    assert_eq!(
        San::from_bytes(b"Qh4xe1"),
        Ok(San::Normal {
            role: Role::Queen,
            file: Some(File::H),
            rank: Some(Rank::Fourth),
            capture: true,
            to: sq("e1"),
            promotion: None,
        })
    );
}

#[test]
fn test_parse_invalid_san() {
    for text in &[
        "", "+", "e", "e9", "i4", "Xe4", "Ne", "exd", "e4e", "e8=", "e8=q", "e8=Qx", "O-O-", "-",
        "@e9", "n@e4", "N@@4", "e4+#", "Nxx4", "=Q",
    ] {
        assert_eq!(San::from_bytes(text.as_bytes()), Err(InvalidSan), "{}", text);
    }
}

#[test]
fn test_san_to_move() {
    let pos = Chess::new();
    let san: San = "Nf3".parse().expect("valid san");
    assert_eq!(san.to_string(), "Nf3");
    let m = san.to_move(&pos).expect("legal move");
    assert_eq!(
        m,
        Move::Normal {
            role: Role::Knight,
            from: sq("g1"),
            capture: None,
            to: sq("f3"),
            promotion: None,
        }
    );
    assert_eq!(self::san(&pos, &m).to_string(), "Nf3");
}

#[test]
fn test_san_errors() {
    let pos = Chess::new();
    let illegal: San = "Nf6".parse().expect("valid san");
    assert_eq!(illegal.to_move(&pos), Err(SanError::IllegalSan));
    assert_eq!(San::Null.to_move(&pos), Err(SanError::IllegalSan));
    assert_eq!(San::CastleShort.to_move(&pos), Err(SanError::IllegalSan));

    // Both knights can go to d2.
    let pos = Chess::new();
    let pos = play_all(pos, &["d4", "d5", "Nf3", "Nf6", "Bf4", "Bf5"]);
    let ambiguous: San = "Nd2".parse().expect("valid san");
    assert_eq!(ambiguous.to_move(&pos), Err(SanError::AmbiguousSan));
    let by_file: San = "Nfd2".parse().expect("valid san");
    let m = by_file.to_move(&pos).expect("legal move");
    assert_eq!(san(&pos, &m).to_string(), "Nfd2");
    assert_eq!(SanError::AmbiguousSan.desc(), "ambiguous san");
    assert_eq!(SanError::IllegalSan.desc(), "illegal san");
    assert_eq!(InvalidSan.message(), "invalid san");
}

fn play_all<P: Position>(mut pos: P, sans: &[&str]) -> P {
    for text in sans {
        let san: San = text.parse().expect("valid san");
        let m = san.to_move(&pos).expect("legal move");
        pos.play_unchecked(&m);
    }
    pos
}

#[test]
fn test_castling_san() {
    let pos = play_all(Chess::new(), &["e4", "e5", "Nf3", "Nc6", "Bc4", "Bc5"]);
    let m = San::CastleShort.to_move(&pos).expect("castling is legal");
    assert_eq!(m, Move::Castle { king: sq("e1"), rook: sq("h1") });
    assert_eq!(san(&pos, &m), San::CastleShort);
    assert_eq!(san_plus(pos, &m).to_string(), "O-O");
}

#[test]
fn test_san_plus_suffixes() {
    // The fool's mate.
    let pos = play_all(Chess::new(), &["f3", "e5", "g4"]);
    let mate: San = "Qh4".parse().expect("valid san");
    let m = mate.to_move(&pos).expect("legal move");
    let plus = san_plus(pos, &m);
    assert!(plus.checkmate);
    assert!(!plus.check);
    assert_eq!(plus.to_string(), "Qh4#");

    let pos = play_all(Chess::new(), &["e4", "f5", "d3", "g5"]);
    let check: San = "Qh5".parse().expect("valid san");
    let m = check.to_move(&pos).expect("legal move");
    assert_eq!(san_plus(pos, &m).to_string(), "Qh5#");

    let pos = play_all(Chess::new(), &["e4", "f5"]);
    let m = check.to_move(&pos).expect("legal move");
    assert_eq!(san_plus(pos, &m).to_string(), "Qh5+");
}

fn round_trips<P: Position + Copy>(pos: &P, depth: u32) -> u64 {
    let mut count = 0;
    for m in pos.legals().to_vec() {
        let notation = san(pos, &m);
        assert_eq!(notation.to_move(pos), Ok(m), "{}", notation.to_string());
        let text = notation.to_bytes();
        assert_eq!(San::from_bytes(&text), Ok(notation));
        count += 1;
        if depth > 1 {
            let mut child = *pos;
            child.play_unchecked(&m);
            count += round_trips(&child, depth - 1);
        }
    }
    count
}

#[test]
fn test_san_round_trip_chess() {
    assert_eq!(round_trips(&Chess::new(), 3), 20 + 400 + 8902);
}

#[test]
fn test_san_round_trip_atomic() {
    assert!(round_trips(&Atomic::new(), 3) > 0);
}

#[test]
fn test_san_round_trip_racing_kings() {
    assert!(round_trips(&RacingKings::new(), 2) > 0);
}

#[test]
fn test_san_round_trip_other_variants() {
    assert!(round_trips(&Antichess::new(), 2) > 0);
    assert!(round_trips(&KingOfTheHill::new(), 2) > 0);
    assert!(round_trips(&ThreeCheck::new(), 2) > 0);
    assert!(round_trips(&Crazyhouse::new(), 2) > 0);
    assert!(round_trips(&Horde::new(), 2) > 0);
}

#[test]
fn test_san_round_trip_with_many_rivals() {
    // Queens that reach the same squares, castling and promotions.
    let mut setup = PlainSetup::empty();
    let pieces = [
        ("a8", Role::Rook), ("h8", Role::Rook), ("d7", Role::Queen), ("b6", Role::Queen),
        ("g6", Role::Queen), ("e5", Role::Queen), ("c4", Role::Queen), ("h4", Role::Queen),
        ("a3", Role::Queen), ("f3", Role::Queen), ("d2", Role::Queen), ("b1", Role::Bishop),
        ("c1", Role::Knight), ("d1", Role::Knight), ("f1", Role::King), ("g1", Role::Bishop),
    ];
    for (name, role) in pieces {
        setup.board.set_piece_at(sq(name), Piece { color: Color::White, role }, false);
    }
    setup.board.set_piece_at(sq("a1"), Color::Black.king(), false);
    setup.board.set_piece_at(sq("a2"), Color::Black.pawn(), false);
    setup.board.set_piece_at(sq("b2"), Color::Black.pawn(), false);
    let pos = Chess::from_setup(&setup).ok().expect("valid position");
    assert_eq!(round_trips(&pos, 1), 218);
}

#[test]
fn test_written_moves_are_read_back() {
    let roles = [Role::Pawn, Role::Knight, Role::Bishop, Role::Rook, Role::Queen, Role::King];
    let mut count = 0;
    for role in roles {
        for file in [None, File::new(0), File::new(4), File::new(7)] {
            for rank in [None, Rank::new(0), Rank::new(3), Rank::new(7)] {
                for capture in [false, true] {
                    for target in [0u8, 9, 28, 36, 55, 63] {
                        for promotion in [None, Some(Role::Queen), Some(Role::Knight), Some(Role::King)] {
                            let san = San::Normal {
                                role,
                                file,
                                rank,
                                capture,
                                to: Square::new(target).expect("square"),
                                promotion,
                            };
                            assert_eq!(San::from_bytes(&san.to_bytes()), Ok(san));
                            count += 1;
                        }
                    }
                }
            }
        }
        for target in [0u8, 27, 63] {
            let san = San::Put { role, to: Square::new(target).expect("square") };
            assert_eq!(San::from_bytes(&san.to_bytes()), Ok(san));
        }
    }
    assert_eq!(count, 6 * 4 * 4 * 2 * 6 * 4);
    for san in [San::CastleShort, San::CastleLong, San::Null] {
        assert_eq!(San::from_bytes(&san.to_bytes()), Ok(san));
        for (check, checkmate) in [(false, false), (true, false), (false, true)] {
            let plus = SanPlus { san, check, checkmate };
            assert_eq!(SanPlus::from_bytes(&plus.to_bytes()), Ok(plus));
        }
    }
}
