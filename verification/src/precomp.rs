//! Attacks and lines, computed once and then looked up.

use vstd::prelude::*;
use crate::attacks;
use crate::attacks::{
    aligned_spec, attacks_spec, between_spec, bishop_attacks_spec, bishop_deltas,
    king_attacks_spec, knight_attacks_spec, pawn_attacks_spec, queen_attacks_spec, ray_spec,
    rook_attacks_spec, rook_deltas,
};
use crate::bitboard::Bitboard;
use crate::color::Color;
use crate::magic::Magics;
use crate::square::Square;
use crate::types::{Piece, Role};

verus! {

/// The entry for the squares with indexes `a` and `b` in a table of all
/// pairs of squares.
pub open spec fn cell(table: Seq<Bitboard>, a: int, b: int) -> Bitboard {
    table[64 * a + b]
}

/// Precomputed attacks of all pieces, and the lines through and between
/// all pairs of squares.
pub struct Precomp {
    knight_attacks: Vec<Bitboard>,
    king_attacks: Vec<Bitboard>,
    white_pawn_attacks: Vec<Bitboard>,
    black_pawn_attacks: Vec<Bitboard>,
    rook: Magics,
    bishop: Magics,
    bb_rays: Vec<Bitboard>,
    bb_between: Vec<Bitboard>,
}

impl Precomp {
    #[verifier::type_invariant]
    spec fn inv(&self) -> bool {
        &&& self.knight_attacks@.len() == 64
        &&& self.king_attacks@.len() == 64
        &&& self.white_pawn_attacks@.len() == 64
        &&& self.black_pawn_attacks@.len() == 64
        &&& self.bb_rays@.len() == 4096
        &&& self.bb_between@.len() == 4096
        &&& self.rook.deltas_spec() == rook_deltas()
        &&& self.bishop.deltas_spec() == bishop_deltas()
        &&& forall|s: int|
            0 <= s < 64 ==> (#[trigger] self.knight_attacks@[s]).0 == knight_attacks_spec(s)
        &&& forall|s: int|
            0 <= s < 64 ==> (#[trigger] self.king_attacks@[s]).0 == king_attacks_spec(s)
        &&& forall|s: int|
            0 <= s < 64 ==> (#[trigger] self.white_pawn_attacks@[s]).0 == pawn_attacks_spec(
                Color::White,
                s,
            )
        &&& forall|s: int|
            0 <= s < 64 ==> (#[trigger] self.black_pawn_attacks@[s]).0 == pawn_attacks_spec(
                Color::Black,
                s,
            )
        &&& forall|a: int, b: int|
            0 <= a < 64 && 0 <= b < 64 ==> (#[trigger] cell(self.bb_rays@, a, b)).0 == ray_spec(
                a,
                b,
            )
        &&& forall|a: int, b: int|
            0 <= a < 64 && 0 <= b < 64 ==> (#[trigger] cell(self.bb_between@, a, b)).0
                == between_spec(a, b)
    }

    /// The square with index `s`.
    fn square(s: usize) -> (r: Square)
        requires
            s < 64,
        ensures
            r.idx() == s,
    {
        broadcast use Square::lemma_idx_at;

        match Square::new(s as u8) {
            Some(sq) => sq,
            None => Square::from_coords(crate::square::File::A, crate::square::Rank::First),
        }
    }

    /// The line through `a` and `b`, found with the tables of rook and
    /// bishop.
    fn ray_by(rook: &Magics, bishop: &Magics, a: Square, b: Square) -> (r: Bitboard)
        requires
            rook.deltas_spec() == rook_deltas(),
            bishop.deltas_spec() == bishop_deltas(),
        ensures
            r.0 == ray_spec(a.idx(), b.idx()),
    {
        let none = Bitboard(0);
        let bishop_a = bishop.lookup(a, none);
        if bishop_a.contains(b) {
            Bitboard(
                (bishop_a.0 & bishop.lookup(b, none).0) | (1u64 << a.index()) | (1u64 << b.index()),
            )
        } else {
            let rook_a = rook.lookup(a, none);
            if rook_a.contains(b) {
                Bitboard(
                    (rook_a.0 & rook.lookup(b, none).0) | (1u64 << a.index()) | (1u64 << b.index()),
                )
            } else {
                none
            }
        }
    }

    /// The squares between `a` and `b`, found with the tables of rook and
    /// bishop.
    fn between_by(rook: &Magics, bishop: &Magics, a: Square, b: Square) -> (r: Bitboard)
        requires
            rook.deltas_spec() == rook_deltas(),
            bishop.deltas_spec() == bishop_deltas(),
        ensures
            r.0 == between_spec(a.idx(), b.idx()),
    {
        let none = Bitboard(0);
        if bishop.lookup(a, none).contains(b) {
            Bitboard(
                bishop.lookup(a, Bitboard::from_square(b)).0 & bishop.lookup(
                    b,
                    Bitboard::from_square(a),
                ).0,
            )
        } else if rook.lookup(a, none).contains(b) {
            Bitboard(
                rook.lookup(a, Bitboard::from_square(b)).0 & rook.lookup(
                    b,
                    Bitboard::from_square(a),
                ).0,
            )
        } else {
            none
        }
    }

    /// Computes all tables. The table of the rook has 0x19000 entries and
    /// that of the bishop 0x1480: one for each subset of the squares that
    /// matter, for each square.
    pub fn new() -> (r: Precomp)
        ensures
            r.table_sizes_spec() == (0x19000nat, 0x1480nat),
    {
        let mut knight_attacks: Vec<Bitboard> = Vec::new();
        let mut king_attacks: Vec<Bitboard> = Vec::new();
        let mut white_pawn_attacks: Vec<Bitboard> = Vec::new();
        let mut black_pawn_attacks: Vec<Bitboard> = Vec::new();
        let mut s: usize = 0;
        while s < 64
            invariant
                s <= 64,
                knight_attacks@.len() == s,
                king_attacks@.len() == s,
                white_pawn_attacks@.len() == s,
                black_pawn_attacks@.len() == s,
                forall|t: int|
                    0 <= t < s ==> (#[trigger] knight_attacks@[t]).0 == knight_attacks_spec(t),
                forall|t: int|
                    0 <= t < s ==> (#[trigger] king_attacks@[t]).0 == king_attacks_spec(t),
                forall|t: int|
                    0 <= t < s ==> (#[trigger] white_pawn_attacks@[t]).0 == pawn_attacks_spec(
                        Color::White,
                        t,
                    ),
                forall|t: int|
                    0 <= t < s ==> (#[trigger] black_pawn_attacks@[t]).0 == pawn_attacks_spec(
                        Color::Black,
                        t,
                    ),
            decreases 64 - s,
        {
            let sq = Precomp::square(s);
            knight_attacks.push(attacks::knight_attacks(sq));
            king_attacks.push(attacks::king_attacks(sq));
            white_pawn_attacks.push(attacks::pawn_attacks(Color::White, sq));
            black_pawn_attacks.push(attacks::pawn_attacks(Color::Black, sq));
            s = s + 1;
        }
        let mut rook_deltas_vec: Vec<i8> = Vec::new();
        rook_deltas_vec.push(8);
        rook_deltas_vec.push(1);
        rook_deltas_vec.push(-8);
        rook_deltas_vec.push(-1);
        assert(rook_deltas_vec@ =~= rook_deltas());
        let mut bishop_deltas_vec: Vec<i8> = Vec::new();
        bishop_deltas_vec.push(9);
        bishop_deltas_vec.push(7);
        bishop_deltas_vec.push(-9);
        bishop_deltas_vec.push(-7);
        assert(bishop_deltas_vec@ =~= bishop_deltas());
        let rook = Magics::init_magics(rook_deltas_vec);
        let bishop = Magics::init_magics(bishop_deltas_vec);
        proof {
            crate::count_laws::lemma_table_total(true);
            crate::count_laws::lemma_table_total(false);
        }
        let mut bb_rays: Vec<Bitboard> = Vec::new();
        let mut bb_between: Vec<Bitboard> = Vec::new();
        let mut a: usize = 0;
        while a < 64
            invariant
                a <= 64,
                rook.deltas_spec() == rook_deltas(),
                bishop.deltas_spec() == bishop_deltas(),
                rook.entries() == 0x19000,
                bishop.entries() == 0x1480,
                bb_rays@.len() == 64 * a,
                bb_between@.len() == 64 * a,
                forall|x: int, y: int|
                    0 <= x < a && 0 <= y < 64 ==> (#[trigger] cell(bb_rays@, x, y)).0 == ray_spec(
                        x,
                        y,
                    ),
                forall|x: int, y: int|
                    0 <= x < a && 0 <= y < 64 ==> (#[trigger] cell(bb_between@, x, y)).0
                        == between_spec(x, y),
            decreases 64 - a,
        {
            let sa = Precomp::square(a);
            let mut b: usize = 0;
            while b < 64
                invariant
                    a < 64,
                    b <= 64,
                    sa.idx() == a,
                    rook.deltas_spec() == rook_deltas(),
                    bishop.deltas_spec() == bishop_deltas(),
                    rook.entries() == 0x19000,
                    bishop.entries() == 0x1480,
                    bb_rays@.len() == 64 * a + b,
                    bb_between@.len() == 64 * a + b,
                    forall|x: int, y: int|
                        0 <= x < a && 0 <= y < 64 ==> (#[trigger] cell(bb_rays@, x, y)).0
                            == ray_spec(x, y),
                    forall|x: int, y: int|
                        0 <= x < a && 0 <= y < 64 ==> (#[trigger] cell(bb_between@, x, y)).0
                            == between_spec(x, y),
                    forall|y: int|
                        0 <= y < b ==> (#[trigger] cell(bb_rays@, a as int, y)).0 == ray_spec(
                            a as int,
                            y,
                        ),
                    forall|y: int|
                        0 <= y < b ==> (#[trigger] cell(bb_between@, a as int, y)).0
                            == between_spec(a as int, y),
                decreases 64 - b,
            {
                let sb = Precomp::square(b);
                let ghost rays_before = bb_rays@;
                let ghost between_before = bb_between@;
                bb_rays.push(Precomp::ray_by(&rook, &bishop, sa, sb));
                bb_between.push(Precomp::between_by(&rook, &bishop, sa, sb));
                proof {
                    assert forall|x: int, y: int| 0 <= x < a && 0 <= y < 64 implies (
                    #[trigger] cell(bb_rays@, x, y)).0 == ray_spec(x, y) by {
                        assert(cell(rays_before, x, y).0 == ray_spec(x, y));
                    }
                    assert forall|x: int, y: int| 0 <= x < a && 0 <= y < 64 implies (
                    #[trigger] cell(bb_between@, x, y)).0 == between_spec(x, y) by {
                        assert(cell(between_before, x, y).0 == between_spec(x, y));
                    }
                    assert forall|y: int| 0 <= y < b + 1 implies (#[trigger] cell(
                        bb_rays@,
                        a as int,
                        y,
                    )).0 == ray_spec(a as int, y) by {
                        if y < b {
                            assert(cell(rays_before, a as int, y).0 == ray_spec(a as int, y));
                        }
                    }
                    assert forall|y: int| 0 <= y < b + 1 implies (#[trigger] cell(
                        bb_between@,
                        a as int,
                        y,
                    )).0 == between_spec(a as int, y) by {
                        if y < b {
                            assert(cell(between_before, a as int, y).0 == between_spec(
                                a as int,
                                y,
                            ));
                        }
                    }
                }
                b = b + 1;
            }
            a = a + 1;
        }
        Precomp {
            knight_attacks,
            king_attacks,
            white_pawn_attacks,
            black_pawn_attacks,
            rook,
            bishop,
            bb_rays,
            bb_between,
        }
    }

    /// The number of entries of the tables of rook and bishop.
    pub closed spec fn table_sizes_spec(&self) -> (nat, nat) {
        (self.rook.entries(), self.bishop.entries())
    }

    /// The number of entries of the tables of rook and bishop.
    pub fn table_sizes(&self) -> (r: (usize, usize))
        ensures
            r.0 == self.table_sizes_spec().0,
            r.1 == self.table_sizes_spec().1,
    {
        (self.rook.len(), self.bishop.len())
    }

    pub fn pawn_attacks(&self, color: Color, sq: Square) -> (r: Bitboard)
        ensures
            r.0 == pawn_attacks_spec(color, sq.idx()),
    {
        proof {
            use_type_invariant(self);
        }
        match color {
            Color::White => self.white_pawn_attacks[sq.index() as usize],
            Color::Black => self.black_pawn_attacks[sq.index() as usize],
        }
    }

    pub fn knight_attacks(&self, sq: Square) -> (r: Bitboard)
        ensures
            r.0 == knight_attacks_spec(sq.idx()),
    {
        proof {
            use_type_invariant(self);
        }
        self.knight_attacks[sq.index() as usize]
    }

    pub fn king_attacks(&self, sq: Square) -> (r: Bitboard)
        ensures
            r.0 == king_attacks_spec(sq.idx()),
    {
        proof {
            use_type_invariant(self);
        }
        self.king_attacks[sq.index() as usize]
    }

    pub fn rook_attacks(&self, sq: Square, occupied: Bitboard) -> (r: Bitboard)
        ensures
            r.0 == rook_attacks_spec(sq.idx(), occupied.0),
    {
        proof {
            use_type_invariant(self);
        }
        self.rook.lookup(sq, occupied)
    }

    pub fn bishop_attacks(&self, sq: Square, occupied: Bitboard) -> (r: Bitboard)
        ensures
            r.0 == bishop_attacks_spec(sq.idx(), occupied.0),
    {
        proof {
            use_type_invariant(self);
        }
        self.bishop.lookup(sq, occupied)
    }

    pub fn queen_attacks(&self, sq: Square, occupied: Bitboard) -> (r: Bitboard)
        ensures
            r.0 == queen_attacks_spec(sq.idx(), occupied.0),
    {
        Bitboard(self.rook_attacks(sq, occupied).0 | self.bishop_attacks(sq, occupied).0)
    }

    pub fn attacks(&self, sq: Square, piece: Piece, occupied: Bitboard) -> (r: Bitboard)
        ensures
            r.0 == attacks_spec(sq.idx(), piece, occupied.0),
    {
        match piece.role {
            Role::Pawn => self.pawn_attacks(piece.color, sq),
            Role::Knight => self.knight_attacks(sq),
            Role::Bishop => self.bishop_attacks(sq, occupied),
            Role::Rook => self.rook_attacks(sq, occupied),
            Role::Queen => self.queen_attacks(sq, occupied),
            Role::King => self.king_attacks(sq),
        }
    }

    pub fn ray(&self, a: Square, b: Square) -> (r: Bitboard)
        ensures
            r.0 == ray_spec(a.idx(), b.idx()),
    {
        let i = 64 * (a.index() as usize) + b.index() as usize;
        proof {
            use_type_invariant(self);
            assert(cell(self.bb_rays@, a.idx(), b.idx()).0 == ray_spec(a.idx(), b.idx()));
        }
        self.bb_rays[i]
    }

    pub fn between(&self, a: Square, b: Square) -> (r: Bitboard)
        ensures
            r.0 == between_spec(a.idx(), b.idx()),
    {
        let i = 64 * (a.index() as usize) + b.index() as usize;
        proof {
            use_type_invariant(self);
            assert(cell(self.bb_between@, a.idx(), b.idx()).0 == between_spec(a.idx(), b.idx()));
        }
        self.bb_between[i]
    }

    pub fn aligned(&self, a: Square, b: Square, c: Square) -> (r: bool)
        ensures
            r == aligned_spec(a.idx(), b.idx(), c.idx()),
    {
        self.ray(a, b).contains(c)
    }
}

} // verus!
