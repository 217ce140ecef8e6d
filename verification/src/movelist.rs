//! A list of moves.

use vstd::prelude::*;
use crate::types::Move;

verus! {

/// What `swap_retain` leaves of `s`, from position `i` on: a move that is
/// not kept is replaced by the last move of the list, which is then looked
/// at in its place.
pub open spec fn swap_retained(s: Seq<Move>, keep: spec_fn(Move) -> bool, i: int) -> Seq<Move>
    decreases s.len() - i,
{
    if i < 0 || i >= s.len() {
        s
    } else if keep(s[i]) {
        swap_retained(s, keep, i + 1)
    } else {
        swap_retained(s.update(i, s.last()).drop_last(), keep, i)
    }
}

/// An ordered list of moves, with room for 256 moves when it is made.
#[derive(Debug)]
pub struct MoveList {
    moves: Vec<Move>,
}

impl View for MoveList {
    type V = Seq<Move>;

    closed spec fn view(&self) -> Seq<Move> {
        self.moves@
    }
}

impl MoveList {
    /// The empty list, with room for 256 moves. The list grows where more
    /// moves come, so that no move is ever left out.
    pub fn new() -> (r: MoveList)
        ensures
            r@ == Seq::<Move>::empty(),
    {
        MoveList { moves: Vec::with_capacity(256) }
    }

    /// A copy of the list.
    pub fn duplicate(&self) -> (r: MoveList)
        ensures
            r@ == self@,
    {
        MoveList { moves: self.to_vec() }
    }

    pub fn len(&self) -> (r: usize)
        ensures
            r == self@.len(),
    {
        self.moves.len()
    }

    pub fn is_empty(&self) -> (r: bool)
        ensures
            r == (self@.len() == 0),
    {
        self.moves.len() == 0
    }

    pub fn clear(&mut self)
        ensures
            final(self)@ == Seq::<Move>::empty(),
    {
        self.moves.clear();
    }

    pub fn push(&mut self, m: Move)
        ensures
            final(self)@ == old(self)@.push(m),
    {
        self.moves.push(m);
    }

    /// The move at position `i`, if there is one.
    pub fn get(&self, i: usize) -> (r: Option<Move>)
        ensures
            r == (if i < self@.len() { Some(self@[i as int]) } else { None::<Move> }),
    {
        if i < self.moves.len() {
            Some(self.moves[i])
        } else {
            None
        }
    }

    /// The first move, if there is one.
    pub fn first(&self) -> (r: Option<Move>)
        ensures
            r == (if self@.len() > 0 { Some(self@[0]) } else { None::<Move> }),
    {
        self.get(0)
    }

    pub fn contains(&self, m: &Move) -> (r: bool)
        ensures
            r == self@.contains(*m),
    {
        let mut i: usize = 0;
        while i < self.moves.len()
            invariant
                i <= self.moves.len(),
                forall|j: int| 0 <= j < i ==> self.moves@[j] != *m,
            decreases self.moves.len() - i,
        {
            if self.moves[i] == *m {
                return true;
            }
            i = i + 1;
        }
        false
    }

    /// Appends the moves of another list.
    pub fn extend(&mut self, other: &MoveList)
        ensures
            final(self)@ == old(self)@ + other@,
    {
        let mut i: usize = 0;
        while i < other.moves.len()
            invariant
                i <= other.moves.len(),
                self.moves@ == old(self).moves@ + other.moves@.subrange(0, i as int),
            decreases other.moves.len() - i,
        {
            self.moves.push(other.moves[i]);
            i = i + 1;
            assert(self.moves@ =~= old(self).moves@ + other.moves@.subrange(0, i as int));
        }
        assert(other.moves@.subrange(0, i as int) =~= other.moves@);
    }

    /// The moves as a vector.
    pub fn to_vec(&self) -> (r: Vec<Move>)
        ensures
            r@ == self@,
    {
        let mut out: Vec<Move> = Vec::new();
        let mut i: usize = 0;
        while i < self.moves.len()
            invariant
                i <= self.moves.len(),
                out@ == self.moves@.subrange(0, i as int),
            decreases self.moves.len() - i,
        {
            out.push(self.moves[i]);
            i = i + 1;
            assert(out@ =~= self.moves@.subrange(0, i as int));
        }
        assert(self.moves@.subrange(0, i as int) =~= self.moves@);
        out
    }

    /// Keeps the moves for which `f` returns true, in their order.
    pub fn retain<F: Fn(&Move) -> bool>(&mut self, f: F)
        requires
            forall|m: Move| #[trigger] f.requires((&m,)),
            forall|m: Move, a: bool, b: bool|
                f.ensures((&m,), a) && f.ensures((&m,), b) ==> a == b,
        ensures
            final(self)@ == old(self)@.filter(|m: Move| f.ensures((&m,), true)),
    {
        let ghost keep = |m: Move| f.ensures((&m,), true);
        let mut out: Vec<Move> = Vec::new();
        let mut i: usize = 0;
        assert(self.moves@.subrange(0, 0) =~= Seq::<Move>::empty());
        while i < self.moves.len()
            invariant
                i <= self.moves.len(),
                self.moves@ == old(self).moves@,
                keep == (|m: Move| f.ensures((&m,), true)),
                forall|m: Move| #[trigger] f.requires((&m,)),
                forall|m: Move, a: bool, b: bool|
                    f.ensures((&m,), a) && f.ensures((&m,), b) ==> a == b,
                out@ == self.moves@.subrange(0, i as int).filter(keep),
            decreases self.moves.len() - i,
        {
            let m = self.moves[i];
            let kept = f(&m);
            proof {
                let prefix = self.moves@.subrange(0, i as int);
                prefix.lemma_filter_push(m, keep);
                assert(prefix.push(m) =~= self.moves@.subrange(0, i + 1));
                assert(keep(m) == kept);
            }
            if kept {
                out.push(m);
            }
            i = i + 1;
        }
        assert(self.moves@.subrange(0, i as int) =~= self.moves@);
        self.moves = out;
    }

    /// Keeps the moves for which `f` returns true, in their order, where
    /// `f` is known to compute `keep`.
    pub fn retain_by<F: Fn(&Move) -> bool>(&mut self, f: F, Ghost(keep): Ghost<spec_fn(Move) -> bool>)
        requires
            forall|m: Move| #[trigger] f.requires((&m,)),
            forall|m: Move, r: bool| f.ensures((&m,), r) ==> r == keep(m),
        ensures
            final(self)@ == old(self)@.filter(keep),
    {
        let mut out: Vec<Move> = Vec::new();
        let mut i: usize = 0;
        assert(self.moves@.subrange(0, 0) =~= Seq::<Move>::empty());
        while i < self.moves.len()
            invariant
                i <= self.moves.len(),
                self.moves@ == old(self).moves@,
                forall|m: Move| #[trigger] f.requires((&m,)),
                forall|m: Move, r: bool| f.ensures((&m,), r) ==> r == keep(m),
                out@ == self.moves@.subrange(0, i as int).filter(keep),
            decreases self.moves.len() - i,
        {
            let m = self.moves[i];
            let kept = f(&m);
            proof {
                let prefix = self.moves@.subrange(0, i as int);
                prefix.lemma_filter_push(m, keep);
                assert(prefix.push(m) =~= self.moves@.subrange(0, i + 1));
            }
            if kept {
                out.push(m);
            }
            i = i + 1;
        }
        assert(self.moves@.subrange(0, i as int) =~= self.moves@);
        self.moves = out;
    }

    /// Keeps the moves for which `f` returns true. A move that is dropped
    /// is replaced by the last move of the list, so the order may change.
    pub fn swap_retain<F: Fn(&Move) -> bool>(&mut self, f: F)
        requires
            forall|m: Move| #[trigger] f.requires((&m,)),
            forall|m: Move, a: bool, b: bool|
                f.ensures((&m,), a) && f.ensures((&m,), b) ==> a == b,
        ensures
            final(self)@ == swap_retained(old(self)@, |m: Move| f.ensures((&m,), true), 0),
    {
        let ghost keep = |m: Move| f.ensures((&m,), true);
        let mut i: usize = 0;
        while i < self.moves.len()
            invariant
                i <= self.moves.len(),
                keep == (|m: Move| f.ensures((&m,), true)),
                forall|m: Move| #[trigger] f.requires((&m,)),
                forall|m: Move, a: bool, b: bool|
                    f.ensures((&m,), a) && f.ensures((&m,), b) ==> a == b,
                swap_retained(self.moves@, keep, i as int) == swap_retained(old(self).moves@, keep, 0),
            decreases self.moves.len() - i,
        {
            let m = self.moves[i];
            let kept = f(&m);
            assert(keep(m) == kept);
            if kept {
                i = i + 1;
            } else {
                let ghost before = self.moves@;
                let last = self.moves.pop();
                match last {
                    Some(l) => {
                        if i < self.moves.len() {
                            self.moves.set(i, l);
                        }
                    },
                    None => {},
                }
                assert(self.moves@ =~= before.update(i as int, before.last()).drop_last());
            }
        }
    }
}

impl Default for MoveList {
    fn default() -> (r: MoveList)
        ensures
            r@ == Seq::<Move>::empty(),
    {
        MoveList::new()
    }
}

} // verus!
