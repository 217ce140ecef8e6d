use shakmaty::attacks;
use shakmaty::bitboard::Bitboard;
use shakmaty::color::Color;
use shakmaty::precomp::Precomp;
use shakmaty::square::Square;

fn sq(name: &str) -> Square {
    Square::from_bytes(name.as_bytes()).expect("valid square")
}

#[test]
fn test_sliding_rook_attacks() {
    let attack = attacks::sliding_attacks(sq("d6"), Bitboard(0x3f7f28802826f5b9), &[8, 1, -8, -1]);
    assert_eq!(attack, Bitboard(0x8370808000000));
}

#[test]
fn test_direct_rook_attacks() {
    assert_eq!(
        attacks::rook_attacks(sq("d6"), Bitboard(0x3f7f28802826f5b9)),
        Bitboard(0x8370808000000)
    );
}

#[test]
fn test_knight_attacks_in_the_corner() {
    // b3 and c2
    assert_eq!(attacks::knight_attacks(sq("a1")), Bitboard((1 << 17) | (1 << 10)));
    // f7 and g6
    assert_eq!(attacks::knight_attacks(sq("h8")), Bitboard((1 << 53) | (1 << 46)));
}

#[test]
fn test_king_attacks_on_the_edge() {
    // a1, b1, b2, b3, a3
    assert_eq!(
        attacks::king_attacks(sq("a2")),
        Bitboard(1 | (1 << 1) | (1 << 9) | (1 << 17) | (1 << 16))
    );
}

#[test]
fn test_pawn_attacks() {
    assert_eq!(attacks::pawn_attacks(Color::White, sq("a2")), Bitboard(1 << 17));
    assert_eq!(attacks::pawn_attacks(Color::White, sq("e4")), Bitboard((1 << 35) | (1 << 37)));
    assert_eq!(attacks::pawn_attacks(Color::Black, sq("h7")), Bitboard(1 << 46));
    assert_eq!(attacks::pawn_attacks(Color::White, sq("e8")), Bitboard(0));
}

#[test]
fn test_ray_and_between() {
    // a1 to h8: the long diagonal
    assert_eq!(attacks::ray(sq("a1"), sq("c3")), Bitboard(0x8040201008040201));
    assert_eq!(attacks::between(sq("a1"), sq("d4")), Bitboard((1 << 9) | (1 << 18)));
    assert_eq!(attacks::between(sq("a1"), sq("a4")), Bitboard((1 << 8) | (1 << 16)));
    assert_eq!(attacks::between(sq("a1"), sq("b3")), Bitboard(0));
    assert_eq!(attacks::ray(sq("a1"), sq("b3")), Bitboard(0));
    assert_eq!(attacks::ray(sq("e1"), sq("e8")), Bitboard(0x1010101010101010));
    assert!(attacks::aligned(sq("a1"), sq("c3"), sq("h8")));
    assert!(!attacks::aligned(sq("a1"), sq("c3"), sq("h7")));
}

#[test]
fn test_rook_attacks() {
    let table = Precomp::new();
    assert_eq!(
        table.rook_attacks(sq("d6"), Bitboard(0x3f7f28802826f5b9)),
        Bitboard(0x8370808000000)
    );
}

#[test]
fn test_table_sizes() {
    let table = Precomp::new();
    assert_eq!(table.table_sizes(), (0x19000, 0x1480));
}

#[test]
fn test_tables_agree_with_walks() {
    let table = Precomp::new();
    let mut occupied: u64 = 0x0123_4567_89ab_cdef;
    for index in 0..64 {
        let square = Square::new(index).expect("square on the board");
        for _ in 0..20 {
            // A simple generator of scattered sets of squares.
            occupied ^= occupied << 13;
            occupied ^= occupied >> 7;
            occupied ^= occupied << 17;
            let set = Bitboard(occupied & (occupied >> 3));
            assert_eq!(table.rook_attacks(square, set), attacks::rook_attacks(square, set));
            assert_eq!(table.bishop_attacks(square, set), attacks::bishop_attacks(square, set));
            assert_eq!(table.queen_attacks(square, set), attacks::queen_attacks(square, set));
        }
        assert_eq!(table.knight_attacks(square), attacks::knight_attacks(square));
        assert_eq!(table.king_attacks(square), attacks::king_attacks(square));
        assert_eq!(
            table.pawn_attacks(Color::Black, square),
            attacks::pawn_attacks(Color::Black, square)
        );
        let other = Square::new(63 - index).expect("square on the board");
        assert_eq!(table.ray(square, other), attacks::ray(square, other));
        assert_eq!(table.between(square, other), attacks::between(square, other));
    }
    assert!(table.aligned(sq("a1"), sq("b2"), sq("h8")));
}
