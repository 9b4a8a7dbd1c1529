use vstd::prelude::*;
use crate::grid::{Cell, GRID_CELLS};

verus! {

/// Number of segment slots in a chain's arena: one more than the board has
/// cells, so that a chain covering the board can still take a new head before
/// the collision that must follow.
pub const CHAIN_CAPACITY: usize = GRID_CELLS + 1;

/// Stable identity of a segment: the arena slot that holds it.
pub type SegmentId = usize;

/// Why a chain operation could not be carried out.
#[derive(Clone, Copy, Debug, PartialEq, Eq, Structural)]
pub enum ChainError {
    /// The chain has fewer than two segments, so its tail cannot go.
    EmptyChain,
}

/// The snake's body: segments from head to tail, kept in a fixed arena of
/// slots. Each segment's neighbour toward the head sits in the next slot
/// (wrapping around), so a new head takes the slot after the current head and
/// the tail leaves by being forgotten; both are O(1) and no slot moves.
pub struct Chain {
    slots: Vec<Cell>,
    head: usize,
    len: usize,
}

/// The arena slot of the segment `i` places behind the head in slot `head`.
pub open spec fn slot_of(head: int, i: int) -> int {
    if i <= head {
        head - i
    } else {
        head + CHAIN_CAPACITY - i
    }
}

impl View for Chain {
    type V = Seq<Cell>;

    /// The occupied cells, head first, tail last.
    closed spec fn view(&self) -> Seq<Cell> {
        Seq::new(self.len as nat, |i: int| self.slots@[slot_of(self.head as int, i)])
    }
}

impl Chain {
    /// The arena is laid out as the constructor and the methods keep it.
    pub closed spec fn wf(&self) -> bool {
        &&& self.slots@.len() == CHAIN_CAPACITY
        &&& self.head < CHAIN_CAPACITY
        &&& 1 <= self.len <= CHAIN_CAPACITY
    }

    /// A chain of two segments: `head` in front of `tail`.
    pub fn new(head: Cell, tail: Cell) -> (r: Chain)
        ensures
            r.wf(),
            r@ == seq![head, tail],
    {
        let mut slots: Vec<Cell> = Vec::new();
        slots.push(tail);
        slots.push(head);
        while slots.len() < CHAIN_CAPACITY
            invariant
                2 <= slots@.len() <= CHAIN_CAPACITY,
                slots@[0] == tail,
                slots@[1] == head,
            decreases CHAIN_CAPACITY - slots@.len(),
        {
            slots.push(tail);
        }
        let r = Chain { slots, head: 1, len: 2 };
        assert(r@ =~= seq![head, tail]);
        r
    }

    /// Number of segments.
    pub fn len(&self) -> (r: usize)
        requires
            self.wf(),
        ensures
            r == self@.len(),
    {
        self.len
    }

    fn slot(&self, i: usize) -> (r: usize)
        requires
            self.wf(),
            i < self.len,
        ensures
            r == slot_of(self.head as int, i as int),
            r < CHAIN_CAPACITY,
    {
        if i <= self.head {
            self.head - i
        } else {
            self.head + CHAIN_CAPACITY - i
        }
    }

    /// The cell of the segment `i` places behind the head.
    pub fn segment_at(&self, i: usize) -> (r: Cell)
        requires
            self.wf(),
            i < self@.len(),
        ensures
            r == self@[i as int],
    {
        let s = self.slot(i);
        self.slots[s]
    }

    /// The cell of the head.
    pub fn head_position(&self) -> (r: Cell)
        requires
            self.wf(),
        ensures
            r == self@[0],
    {
        self.segment_at(0)
    }

    /// The cell of the tail.
    pub fn tail_position(&self) -> (r: Cell)
        requires
            self.wf(),
        ensures
            r == self@.last(),
    {
        self.segment_at(self.len - 1)
    }

    /// Whether some segment lies on `c`.
    pub fn occupies(&self, c: Cell) -> (r: bool)
        requires
            self.wf(),
        ensures
            r == self@.contains(c),
    {
        let mut i: usize = 0;
        while i < self.len
            invariant
                self.wf(),
                i <= self.len,
                forall|j: int| 0 <= j < i ==> self@[j] != c,
            decreases self.len - i,
        {
            if self.segment_at(i) == c {
                return true;
            }
            i = i + 1;
        }
        false
    }

    /// Whether some segment other than the head lies on the head's cell.
    pub fn head_overlaps_body(&self) -> (r: bool)
        requires
            self.wf(),
        ensures
            r == self@.drop_first().contains(self@[0]),
    {
        let h = self.head_position();
        let mut i: usize = 1;
        while i < self.len
            invariant
                self.wf(),
                1 <= i <= self.len,
                h == self@[0],
                forall|j: int| 1 <= j < i ==> self@[j] != h,
            decreases self.len - i,
        {
            if self.segment_at(i) == h {
                assert(self@.drop_first()[i - 1] == h);
                return true;
            }
            i = i + 1;
        }
        assert(forall|j: int| 0 <= j < self@.drop_first().len() ==> self@.drop_first()[j] == self@[j + 1]);
        false
    }

    /// Every occupied cell, head first.
    pub fn occupied(&self) -> (r: Vec<Cell>)
        requires
            self.wf(),
        ensures
            r@ == self@,
    {
        let mut out: Vec<Cell> = Vec::new();
        let mut i: usize = 0;
        while i < self.len
            invariant
                self.wf(),
                i <= self.len,
                out@ == self@.take(i as int),
            decreases self.len - i,
        {
            out.push(self.segment_at(i));
            i = i + 1;
            assert(out@ =~= self@.take(i as int));
        }
        assert(self@.take(self.len as int) =~= self@);
        out
    }

    /// Puts a new head on `p`, in front of the old one, and returns its id.
    pub fn grow_at_head(&mut self, p: Cell) -> (r: SegmentId)
        requires
            old(self).wf(),
            old(self)@.len() < CHAIN_CAPACITY,
        ensures
            final(self).wf(),
            final(self)@ == seq![p] + old(self)@,
            r < CHAIN_CAPACITY,
    {
        let ghost before = self@;
        let next = if self.head + 1 == CHAIN_CAPACITY {
            0
        } else {
            self.head + 1
        };
        assert forall|i: int| 0 <= i < before.len() implies slot_of(self.head as int, i) != next by {}
        self.slots.set(next, p);
        self.head = next;
        self.len = self.len + 1;
        assert forall|i: int| 1 <= i < self@.len() implies self@[i] == before[i - 1] by {}
        assert(self@ =~= seq![p] + before);
        next
    }

    /// Removes the tail and returns its cell; the segment in front of it
    /// becomes the tail.
    pub fn shrink_at_tail(&mut self) -> (r: Result<Cell, ChainError>)
        requires
            old(self).wf(),
        ensures
            final(self).wf(),
            old(self)@.len() < 2 ==> r == Err::<Cell, ChainError>(ChainError::EmptyChain)
                && final(self)@ == old(self)@,
            old(self)@.len() >= 2 ==> r == Ok::<Cell, ChainError>(old(self)@.last())
                && final(self)@ == old(self)@.drop_last(),
    {
        if self.len < 2 {
            return Err(ChainError::EmptyChain);
        }
        let t = self.tail_position();
        let ghost before = self@;
        self.len = self.len - 1;
        assert(self@ =~= before.drop_last());
        Ok(t)
    }
}

} // verus!
