use shakmaty::bitboard::{
    deposit_bits, extract_bits, Bitboard, BACKRANKS, CENTER, DARK_SQUARES, LIGHT_SQUARES,
};
use shakmaty::color::{ByColor, Color, ParseColorError};
use shakmaty::material::{Material, MaterialSide};
use shakmaty::movelist::MoveList;
use shakmaty::square::{File, ParseSquareError, Rank, Square};
use shakmaty::types::{CastlingSide, Move, Piece, RemainingChecks, Role};

fn sq(name: &str) -> Square {
    Square::from_bytes(name.as_bytes()).expect("valid square")
}

#[test]
fn test_color() {
    assert_eq!(Color::from_char('w'), Some(Color::White));
    assert_eq!(Color::from_char('b'), Some(Color::Black));
    assert_eq!(Color::from_char('x'), None);
    assert_eq!(Color::from_white(true), Color::White);
    assert_eq!(Color::from_white(false), Color::Black);
    assert_eq!(Color::from_black(true), Color::Black);
    assert_eq!(Color::from_black(false), Color::White);
    assert_eq!(Color::White.fold_wb(1, 2), 1);
    assert_eq!(Color::Black.fold_wb(1, 2), 2);
    assert!(Color::White.is_white());
    assert!(!Color::White.is_black());
    assert!(Color::Black.is_black());
    assert_eq!(Color::White.backrank(), Rank::First);
    assert_eq!(Color::Black.backrank(), Rank::Eighth);
    assert_eq!(Color::White.relative_rank(Rank::Second), Rank::Second);
    assert_eq!(Color::Black.relative_rank(Rank::Second), Rank::Seventh);
    assert_eq!(Color::White.char(), 'w');
    assert_eq!(Color::Black.char(), 'b');
    assert_eq!(Color::White.name(), "white");
    assert_eq!(Color::Black.name(), "black");
    assert_eq!(!Color::White, Color::Black);
    assert_eq!(Color::White.other(), Color::Black);
    assert_eq!(Color::White ^ true, Color::Black);
    assert_eq!(Color::White ^ false, Color::White);
    assert_eq!(Color::Black.flipped_if(true), Color::White);
    assert_eq!(Color::from_name(b"white"), Ok(Color::White));
    assert_eq!(Color::from_name(b"black"), Ok(Color::Black));
    assert_eq!(Color::from_name(b"green"), Err(ParseColorError));
    assert_eq!(Color::from_name(b"whit"), Err(ParseColorError));
    assert_eq!(ParseColorError.message(), "invalid color");
}

#[test]
fn test_pieces_of_a_color() {
    assert_eq!(Color::White.pawn(), Piece { color: Color::White, role: Role::Pawn });
    assert_eq!(Color::White.knight(), Piece { color: Color::White, role: Role::Knight });
    assert_eq!(Color::Black.bishop(), Piece { color: Color::Black, role: Role::Bishop });
    assert_eq!(Color::Black.rook(), Piece { color: Color::Black, role: Role::Rook });
    assert_eq!(Color::White.queen(), Piece { color: Color::White, role: Role::Queen });
    assert_eq!(Color::Black.king(), Piece { color: Color::Black, role: Role::King });
    assert_eq!(Role::Knight.of(Color::Black), Color::Black.knight());
}

#[test]
fn test_by_color() {
    let mut pair = ByColor::new_with(|color| if color == Color::White { 1 } else { 2 });
    assert_eq!(pair, ByColor { white: 1, black: 2 });
    assert_eq!(*pair.by_color(Color::White), 1);
    assert_eq!(*pair.by_color(Color::Black), 2);
    *pair.by_color_mut(Color::Black) = 5;
    assert_eq!(pair.clone().into_color(Color::Black), 5);
    pair.flip();
    assert_eq!(pair, ByColor { white: 5, black: 1 });
    assert_eq!(pair.clone().into_flipped(), ByColor { white: 1, black: 5 });
    assert_eq!(pair.clone().map(|n| n * 2), ByColor { white: 10, black: 2 });
    assert!(pair.any(|n| *n == 1));
    assert!(!pair.any(|n| *n == 7));
    assert!(pair.all(|n| *n > 0));
    assert!(!pair.all(|n| *n > 1));
    assert_eq!(pair.find(|n| *n == 1), Some(Color::Black));
    assert_eq!(pair.find(|n| *n == 5), Some(Color::White));
    assert_eq!(pair.find(|n| *n == 9), None);
    assert_eq!(pair.as_ref().copied(), pair);
    assert_eq!(pair.as_ref().cloned(), pair);
    {
        let both = pair.as_mut();
        *both.white += 1;
    }
    assert_eq!(pair.white, 6);
    assert_eq!(
        pair.clone().zip_color(),
        ByColor { white: (Color::White, 6), black: (Color::Black, 1) }
    );
    assert_eq!(
        pair.clone().zip(ByColor { white: 'a', black: 'b' }),
        ByColor { white: (6, 'a'), black: (1, 'b') }
    );
    assert_eq!(pair.iter(), [&6, &1]);
    {
        let [white, black] = pair.iter_mut();
        *white = 1;
        *black = 3;
    }
    assert_eq!(pair, ByColor { white: 1, black: 3 });
    pair.normalize();
    assert_eq!(pair, ByColor { white: 3, black: 1 });
    pair.normalize();
    assert_eq!(pair, ByColor { white: 3, black: 1 });
    assert_eq!(ByColor { white: 1, black: 2 }.into_normalized(), ByColor { white: 2, black: 1 });
    assert!(!pair.is_symmetric());
    assert!(ByColor { white: 4, black: 4 }.is_symmetric());
}

#[test]
fn test_square() {
    assert_eq!(sq("a1").index(), 0);
    assert_eq!(sq("h1").index(), 7);
    assert_eq!(sq("a8").index(), 56);
    assert_eq!(sq("h8").index(), 63);
    assert_eq!(sq("d6").index(), 43);
    assert_eq!(sq("d6").file(), File::D);
    assert_eq!(sq("d6").rank(), Rank::Sixth);
    assert_eq!(Square::from_coords(File::E, Rank::Fourth), sq("e4"));
    assert_eq!(Square::new(64), None);
    assert_eq!(Square::new(28), Some(sq("e4")));
    assert_eq!(sq("e4").offset(8), Some(sq("e5")));
    assert_eq!(sq("e4").offset(-8), Some(sq("e3")));
    assert_eq!(sq("a1").offset(-1), None);
    assert_eq!(sq("h8").offset(1), None);
    assert_eq!(sq("a1").distance(sq("h8")), 7);
    assert_eq!(sq("a1").distance(sq("b3")), 2);
    assert_eq!(sq("e4").distance(sq("e4")), 0);
    assert_eq!(sq("a1").flip_vertical(), sq("a8"));
    assert_eq!(sq("a1").flip_horizontal(), sq("h1"));
    assert!(sq("h1").is_light());
    assert!(!sq("a1").is_light());
    assert_eq!(Square::from_bytes(b"i1"), Err(ParseSquareError));
    assert_eq!(Square::from_bytes(b"a9"), Err(ParseSquareError));
    assert_eq!(Square::from_bytes(b"a"), Err(ParseSquareError));
    assert_eq!(Square::from_bytes(b"a11"), Err(ParseSquareError));
    let mut name = Vec::new();
    sq("g7").write_name(&mut name);
    assert_eq!(name, b"g7".to_vec());
    assert!(sq("a1") < sq("b1"));
    assert!(sq("h1") < sq("a2"));
}

#[test]
fn test_file_and_rank() {
    assert_eq!(File::new(0), Some(File::A));
    assert_eq!(File::new(7), Some(File::H));
    assert_eq!(File::new(8), None);
    assert_eq!(File::C.index(), 2);
    assert_eq!(File::from_char(b'c'), Some(File::C));
    assert_eq!(File::from_char(b'C'), None);
    assert_eq!(File::from_char(b'i'), None);
    assert_eq!(File::C.char(), b'c');
    assert_eq!(File::C.flip_horizontal(), File::F);
    assert_eq!(Rank::new(0), Some(Rank::First));
    assert_eq!(Rank::new(8), None);
    assert_eq!(Rank::Third.index(), 2);
    assert_eq!(Rank::from_char(b'3'), Some(Rank::Third));
    assert_eq!(Rank::from_char(b'0'), None);
    assert_eq!(Rank::from_char(b'9'), None);
    assert_eq!(Rank::Third.char(), b'3');
    assert_eq!(Rank::Third.flip_vertical(), Rank::Sixth);
}

#[test]
fn test_role() {
    assert_eq!(Role::from_char(b'n'), Some(Role::Knight));
    assert_eq!(Role::from_char(b'K'), Some(Role::King));
    assert_eq!(Role::from_char(b'x'), None);
    assert_eq!(Role::Queen.char(), b'q');
    assert_eq!(Role::Queen.upper_char(), b'Q');
    for role in [Role::Pawn, Role::Knight, Role::Bishop, Role::Rook, Role::Queen, Role::King] {
        assert_eq!(Role::from_char(role.char()), Some(role));
        assert_eq!(Role::from_char(role.upper_char()), Some(role));
    }
}

#[test]
fn test_bitboard_sets() {
    let a = Bitboard(0b1010);
    let b = Bitboard(0b0110);
    assert_eq!(a & b, Bitboard(0b0010));
    assert_eq!(a | b, Bitboard(0b1110));
    assert_eq!(a ^ b, Bitboard(0b1100));
    assert_eq!(!Bitboard(0), Bitboard::all());
    assert_eq!(a.intersect(b), Bitboard(0b0010));
    assert_eq!(a.union(b), Bitboard(0b1110));
    assert_eq!(a.minus(b), Bitboard(0b1000));
    assert_eq!(a.symmetric_difference(b), Bitboard(0b1100));
    assert_eq!(Bitboard(0).complement(), Bitboard::all());
    assert!(Bitboard(0b0010).is_subset(a));
    assert!(!b.is_subset(a));
    assert!(Bitboard(0b0101).is_disjoint(a));
    assert!(!a.is_disjoint(b));
    assert!(a.any());
    assert!(!a.is_empty());
    assert!(Bitboard::empty().is_empty());
    assert_eq!(Bitboard::default(), Bitboard(0));
    assert_eq!(Bitboard::from(sq("b1")), Bitboard(2));
    assert_eq!(Bitboard::from_square(sq("h8")), Bitboard(1 << 63));
}

#[test]
fn test_bitboard_squares() {
    let mut set = Bitboard(0);
    set.add(sq("c1"));
    set.add(sq("e4"));
    assert!(set.contains(sq("e4")));
    assert!(!set.contains(sq("e5")));
    assert_eq!(set.count(), 2);
    assert_eq!(set.first(), Some(sq("c1")));
    assert_eq!(set.last(), Some(sq("e4")));
    assert_eq!(set.to_vec(), vec![sq("c1"), sq("e4")]);
    assert!(set.more_than_one());
    assert_eq!(set.single_square(), None);
    set.toggle(sq("c1"));
    assert_eq!(set.single_square(), Some(sq("e4")));
    assert!(!set.more_than_one());
    set.toggle(sq("c1"));
    assert!(set.remove(sq("c1")));
    assert!(!set.remove(sq("c1")));
    set.discard(sq("e4"));
    assert_eq!(set, Bitboard(0));
    assert_eq!(set.first(), None);
    assert_eq!(set.last(), None);
    assert_eq!(set.single_square(), None);
    assert_eq!(set.count(), 0);
    set.add_all(Bitboard(0xff));
    set.discard_all(Bitboard(0x0f));
    assert_eq!(set, Bitboard(0xf0));
    assert_eq!(set.with(sq("a1")), Bitboard(0xf1));
    assert_eq!(set.without(sq("e1")), Bitboard(0xe0));
    assert_eq!(set.without_first(), Bitboard(0xe0));
    assert_eq!(set.pop_front(), Some(sq("e1")));
    assert_eq!(set, Bitboard(0xe0));
    set.clear();
    assert_eq!(set.pop_front(), None);
    assert_eq!(Bitboard::all().count(), 64);
}

#[test]
fn test_bitboard_lines() {
    assert_eq!(Bitboard::rank(Rank::First), Bitboard(0xff));
    assert_eq!(Bitboard::rank(Rank::Eighth), Bitboard(0xff << 56));
    assert_eq!(Bitboard::file(File::A), Bitboard(0x0101_0101_0101_0101));
    assert_eq!(Bitboard::file(File::H), Bitboard(0x8080_8080_8080_8080));
    assert_eq!(Bitboard::relative_rank(Color::White, Rank::Second), Bitboard(0xff00));
    assert_eq!(Bitboard::relative_rank(Color::Black, Rank::Second), Bitboard(0xff << 48));
    assert_eq!(Bitboard(0xff00).relative_shift(Color::White, 8), Bitboard(0xff0000));
    assert_eq!(Bitboard(0xff00).relative_shift(Color::Black, 8), Bitboard(0xff));
    assert_eq!(Bitboard(0xff << 56).relative_shift(Color::White, 8), Bitboard(0));
    assert_eq!(BACKRANKS, 0xff00_0000_0000_00ff);
    assert_eq!(LIGHT_SQUARES | DARK_SQUARES, !0);
    assert_eq!(LIGHT_SQUARES & DARK_SQUARES, 0);
    assert!(Bitboard(DARK_SQUARES).contains(sq("a1")));
    assert!(Bitboard(LIGHT_SQUARES).contains(sq("h1")));
    assert_eq!(
        Bitboard(CENTER).to_vec(),
        vec![sq("d4"), sq("e4"), sq("d5"), sq("e5")]
    );
}

#[test]
fn test_extract_and_deposit() {
    assert_eq!(extract_bits(0b1011_0110, 0b0110_1100), 0b0101);
    assert_eq!(deposit_bits(0b0101, 0b0110_1100), 0b0010_0100);
    assert_eq!(Bitboard(0xffff).extract(Bitboard(0x8001)), 0b11);
    assert_eq!(Bitboard::deposit(0b10, Bitboard(0x8001)), Bitboard(0x8000));
    assert_eq!(extract_bits(0x1234, 0), 0);
    assert_eq!(deposit_bits(0xffff, 0), 0);
    let mask: u64 = 0x0081_4200_0024_1800;
    for bits in [0u64, 1, 0x55, 0xff, 0x1234_5678_9abc_def0] {
        assert_eq!(deposit_bits(extract_bits(bits, mask), mask), bits & mask);
    }
}

#[test]
fn test_subsets_in_carry_rippler_order() {
    let mask = Bitboard(0b1010_0100);
    let mut subsets = vec![Bitboard(0)];
    let mut subset = mask.next_subset(Bitboard(0));
    while subset.any() {
        subsets.push(subset);
        subset = mask.next_subset(subset);
    }
    assert_eq!(
        subsets,
        vec![
            Bitboard(0),
            Bitboard(0b0000_0100),
            Bitboard(0b0010_0000),
            Bitboard(0b0010_0100),
            Bitboard(0b1000_0000),
            Bitboard(0b1000_0100),
            Bitboard(0b1010_0000),
            Bitboard(0b1010_0100),
        ]
    );
    assert_eq!(Bitboard(0).next_subset(Bitboard(0)), Bitboard(0));
}

#[test]
fn test_material() {
    let mut side = MaterialSide::new();
    assert!(side.is_empty());
    side.set_role(Role::Knight, 2);
    side.set_role(Role::Pawn, 3);
    assert_eq!(side.by_role(Role::Knight), 2);
    assert_eq!(side.by_role(Role::Queen), 0);
    assert_eq!(side.count(), 5);
    let mut material = Material::new();
    assert!(material.is_empty());
    *material.by_color_mut(Color::Black) = side;
    assert_eq!(material.by_color(Color::Black).count(), 5);
    assert_eq!(material.by_color(Color::White).count(), 0);
    assert_eq!(material.count(), 5);
    assert_eq!(Material::default(), Material::new());
}

#[test]
fn test_remaining_checks() {
    let mut checks = RemainingChecks::new();
    assert_eq!(checks, RemainingChecks { white: 3, black: 3 });
    checks.decrement(Color::White);
    assert_eq!(checks.by_color(Color::White), 2);
    assert_eq!(checks.by_color(Color::Black), 3);
    checks.decrement(Color::White);
    checks.decrement(Color::White);
    checks.decrement(Color::White);
    assert_eq!(checks.by_color(Color::White), 0);
    assert_eq!(RemainingChecks::default(), RemainingChecks::new());
}

#[test]
fn test_castling_side() {
    assert_eq!(CastlingSide::KingSide.king_to(Color::White), sq("g1"));
    assert_eq!(CastlingSide::KingSide.rook_to(Color::White), sq("f1"));
    assert_eq!(CastlingSide::QueenSide.king_to(Color::Black), sq("c8"));
    assert_eq!(CastlingSide::QueenSide.rook_to(Color::Black), sq("d8"));
    assert!(CastlingSide::QueenSide.is_queen_side());
    assert!(CastlingSide::KingSide.is_king_side());
    assert_eq!(CastlingSide::from_queen_side(true), CastlingSide::QueenSide);
    assert_eq!(CastlingSide::from_king_side(true), CastlingSide::KingSide);
    assert_eq!(CastlingSide::KingSide.king_to_file(), File::G);
    assert_eq!(CastlingSide::QueenSide.rook_to_file(), File::D);
}

#[test]
fn test_moves() {
    let capture = Move::Normal {
        role: Role::Pawn,
        from: sq("e7"),
        capture: Some(Role::Rook),
        to: sq("d8"),
        promotion: Some(Role::Queen),
    };
    assert_eq!(capture.role(), Role::Pawn);
    assert_eq!(capture.from(), Some(sq("e7")));
    assert_eq!(capture.to(), sq("d8"));
    assert_eq!(capture.capture(), Some(Role::Rook));
    assert_eq!(capture.promotion(), Some(Role::Queen));
    assert!(capture.is_capture());
    assert!(capture.is_promotion());
    assert!(capture.is_zeroing());
    assert!(!capture.is_en_passant());
    assert!(!capture.is_castle());
    assert_eq!(capture.castling_side(), None);
    let quiet = Move::Normal {
        role: Role::Knight,
        from: sq("g1"),
        capture: None,
        to: sq("f3"),
        promotion: None,
    };
    assert!(!quiet.is_zeroing());
    assert!(!quiet.is_capture());
    let en_passant = Move::EnPassant { from: sq("e5"), to: sq("d6") };
    assert!(en_passant.is_en_passant());
    assert!(en_passant.is_capture());
    assert!(en_passant.is_zeroing());
    assert_eq!(en_passant.capture(), Some(Role::Pawn));
    assert_eq!(en_passant.role(), Role::Pawn);
    let castle = Move::Castle { king: sq("e1"), rook: sq("a1") };
    assert!(castle.is_castle());
    assert!(castle.is_zeroing());
    assert_eq!(castle.castling_side(), Some(CastlingSide::QueenSide));
    assert_eq!(castle.role(), Role::King);
    assert_eq!(castle.from(), Some(sq("e1")));
    assert_eq!(castle.to(), sq("a1"));
    let put = Move::Put { role: Role::Pawn, to: sq("e4") };
    assert!(put.is_zeroing());
    assert!(!Move::Put { role: Role::Knight, to: sq("e4") }.is_zeroing());
    assert_eq!(put.from(), None);
}

#[test]
fn test_move_list() {
    let a = Move::Put { role: Role::Pawn, to: sq("e4") };
    let b = Move::Put { role: Role::Knight, to: sq("e4") };
    let c = Move::Put { role: Role::Queen, to: sq("e5") };
    let d = Move::Put { role: Role::Rook, to: sq("a1") };
    let mut moves = MoveList::new();
    assert!(moves.is_empty());
    assert_eq!(moves.first(), None);
    for m in [a, b, c, d] {
        moves.push(m);
    }
    assert_eq!(moves.len(), 4);
    assert_eq!(moves.get(1), Some(b));
    assert_eq!(moves.get(4), None);
    assert_eq!(moves.first(), Some(a));
    assert!(moves.contains(&c));
    let mut kept = moves.duplicate();
    kept.retain(|m| m.to() == sq("e4"));
    assert_eq!(kept.to_vec(), vec![a, b]);
    // The last move takes the place of a move that is dropped.
    let mut swapped = moves.duplicate();
    swapped.swap_retain(|m| *m != a && *m != b);
    assert_eq!(swapped.to_vec(), vec![d, c]);
    kept.extend(&swapped);
    assert_eq!(kept.to_vec(), vec![a, b, d, c]);
    kept.clear();
    assert!(kept.is_empty());
    assert!(!kept.contains(&a));
    assert!(MoveList::default().is_empty());
}

#[test]
fn test_subsets_come_in_the_order_of_their_numbers() {
    for mask in [0u64, 1, 0x8000_0000_0000_0000, 0x8001, 0x0101_0101_0100_0000, 0x7e00, 0x0042_2400] {
        let count = Bitboard(mask).count() as u32;
        let mut subset = Bitboard(0);
        for n in 0..(1u64 << count) {
            assert_eq!(subset.0, deposit_bits(n, mask));
            assert_eq!(extract_bits(subset.0, mask), n);
            subset = Bitboard(mask).next_subset(subset);
        }
        assert_eq!(subset, Bitboard(0));
    }
}

#[test]
fn test_color_from_str() {
    assert_eq!("white".parse::<Color>().ok(), Some(Color::White));
    assert_eq!("black".parse::<Color>().ok(), Some(Color::Black));
    assert!("White".parse::<Color>().is_err());
    assert!("".parse::<Color>().is_err());
    assert!("whites".parse::<Color>().is_err());
}
