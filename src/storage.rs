//! Append-only record storage of one channel partition.

use vstd::prelude::*;

verus! {

/// The records from `offset` on, at most `count` of them.
pub open spec fn window(s: Seq<u32>, offset: nat, count: nat) -> Seq<u32> {
    if offset >= s.len() {
        Seq::empty()
    } else if offset + count > s.len() {
        s.subrange(offset as int, s.len() as int)
    } else {
        s.subrange(offset as int, (offset + count) as int)
    }
}

/// Records in the order they were appended; indices are dense from 0.
pub struct VecStorage {
    data: Vec<u32>,
}

impl View for VecStorage {
    type V = Seq<u32>;

    closed spec fn view(&self) -> Seq<u32> {
        self.data@
    }
}

impl VecStorage {
    pub fn new() -> (r: VecStorage)
        ensures
            r@ == Seq::<u32>::empty(),
    {
        VecStorage { data: Vec::new() }
    }

    /// Appends `elements`, leaving it empty.
    pub fn enqueue(&mut self, elements: &mut Vec<u32>)
        ensures
            final(self)@ == old(self)@ + old(elements)@,
            final(elements)@ == Seq::<u32>::empty(),
    {
        self.data.append(elements);
    }

    /// Drops the first `count` records.
    pub fn remove(&mut self, count: usize)
        requires
            count <= old(self)@.len(),
        ensures
            final(self)@ == old(self)@.skip(count as int),
    {
        let mut rest: Vec<u32> = Vec::new();
        let mut i: usize = count;
        while i < self.data.len()
            invariant
                self.data@ == old(self)@,
                count <= i <= self.data@.len(),
                rest@ == self.data@.subrange(count as int, i as int),
            decreases self.data@.len() - i,
        {
            rest.push(self.data[i]);
            i = i + 1;
        }
        self.data = rest;
    }

    /// Up to `count` records from `offset` on.
    pub fn peek(&self, offset: usize, count: usize) -> (r: Vec<u32>)
        ensures
            r@ == window(self@, offset as nat, count as nat),
    {
        let len = self.data.len();
        if offset >= len {
            return Vec::new();
        }
        let end = if count > len - offset {
            len
        } else {
            offset + count
        };
        vstd::slice::slice_to_vec(&self.data.as_slice()[offset..end])
    }

    pub fn len(&self) -> (r: usize)
        ensures
            r == self@.len(),
    {
        self.data.len()
    }
}

} // verus!
