//! Fan-out wake list of a consumer group: many waiting consume futures, each
//! with a handle; a wake picks one and rotates it to the tail.

use vstd::prelude::*;

verus! {

/// Identifies one waiting consume future in a wake list.
pub type WakerHandle = u64;

/// The handles of live waiters in wake order, and the next fresh handle.
pub struct ConsumerWaker {
    handles: Vec<WakerHandle>,
    next_id: u64,
}

impl View for ConsumerWaker {
    type V = Seq<WakerHandle>;

    closed spec fn view(&self) -> Seq<WakerHandle> {
        self.handles@
    }
}

impl ConsumerWaker {
    /// Handles are distinct, and all below the next fresh one.
    pub closed spec fn wf(&self) -> bool {
        &&& forall|i: int| 0 <= i < self.handles@.len() ==> self.handles@[i] < self.next_id
        &&& forall|i: int, j: int|
            0 <= i < j < self.handles@.len() ==> self.handles@[i] != self.handles@[j]
    }

    /// A fresh handle can still be issued.
    pub closed spec fn can_issue(&self) -> bool {
        self.next_id < u64::MAX
    }

    pub fn new() -> (r: ConsumerWaker)
        ensures
            r@ == Seq::<WakerHandle>::empty(),
            r.wf(),
            r.can_issue(),
    {
        ConsumerWaker { handles: Vec::new(), next_id: 0 }
    }

    /// Adds a new waiter at the tail and returns its handle.
    pub fn handle(&mut self) -> (r: WakerHandle)
        requires
            old(self).wf(),
            old(self).can_issue(),
        ensures
            final(self).wf(),
            !old(self)@.contains(r),
            final(self)@ == old(self)@.push(r),
    {
        let id = self.next_id;
        self.handles.push(id);
        self.next_id = id + 1;
        proof {
            if old(self)@.contains(id) {
                let k = choose|k: int| 0 <= k < old(self)@.len() && old(self)@[k] == id;
                assert(old(self).handles@[k] < old(self).next_id);
            }
        }
        id
    }

    /// Whether another handle can still be issued after this one.
    pub fn has_capacity(&self) -> (r: bool)
        ensures
            r == self.can_issue(),
    {
        self.next_id < u64::MAX
    }

    /// Deregisters a waiter; unknown handles are ignored.
    pub fn remove(&mut self, handle: WakerHandle)
        requires
            old(self).wf(),
        ensures
            final(self).wf(),
            final(self).can_issue() == old(self).can_issue(),
            !final(self)@.contains(handle),
            old(self)@.contains(handle) ==> exists|k: int|
                0 <= k < old(self)@.len() && old(self)@[k] == handle && final(self)@ == old(self)@.remove(k),
            !old(self)@.contains(handle) ==> final(self)@ == old(self)@,
    {
        let mut i: usize = 0;
        while i < self.handles.len()
            invariant
                self.handles@ == old(self).handles@,
                self.next_id == old(self).next_id,
                old(self).wf(),
                i <= self.handles@.len(),
                forall|j: int| 0 <= j < i ==> self.handles@[j] != handle,
            decreases self.handles@.len() - i,
        {
            if self.handles[i] == handle {
                self.handles.remove(i);
                proof {
                    let s = old(self).handles@;
                    let t = self.handles@;
                    assert(s[i as int] == handle);
                    assert forall|a: int| 0 <= a < t.len() implies t[a] != handle by {
                        if a < i {
                        } else {
                            assert(t[a] == s[a + 1]);
                            assert(s[i as int] != s[a + 1]);
                        }
                    }
                    assert forall|a: int, b: int| 0 <= a < b < t.len() implies t[a] != t[b] by {
                        let a2 = if a < i { a } else { a + 1 };
                        let b2 = if b < i { b } else { b + 1 };
                        assert(t[a] == s[a2] && t[b] == s[b2]);
                    }
                    assert forall|a: int| 0 <= a < t.len() implies t[a] < self.next_id by {
                        let a2 = if a < i { a } else { a + 1 };
                        assert(t[a] == s[a2]);
                    }
                }
                return;
            }
            i = i + 1;
        }
    }

    /// Wakes one waiter: the one at the head, which moves to the tail.
    /// Returns its handle, or `None` when nobody waits.
    pub fn wake(&mut self) -> (r: Option<WakerHandle>)
        requires
            old(self).wf(),
        ensures
            final(self).wf(),
            final(self).can_issue() == old(self).can_issue(),
            old(self)@.len() == 0 ==> r is None && final(self)@ == old(self)@,
            old(self)@.len() > 0 ==> r == Some(old(self)@[0]) && final(self)@ == old(self)@.skip(
                1,
            ).push(old(self)@[0]),
    {
        if self.handles.len() == 0 {
            return None;
        }
        let h = self.handles.remove(0);
        self.handles.push(h);
        proof {
            let s = old(self).handles@;
            let t = self.handles@;
            assert(t =~= s.skip(1).push(s[0]));
            assert forall|a: int, b: int| 0 <= a < b < t.len() implies t[a] != t[b] by {
                let a2 = if a == t.len() - 1 { 0 } else { a + 1 };
                let b2 = if b == t.len() - 1 { 0 } else { b + 1 };
                assert(t[a] == s[a2] && t[b] == s[b2]);
            }
            assert forall|a: int| 0 <= a < t.len() implies t[a] < self.next_id by {
                let a2 = if a == t.len() - 1 { 0 } else { a + 1 };
                assert(t[a] == s[a2]);
            }
        }
        Some(h)
    }

    pub fn len(&self) -> (r: usize)
        ensures
            r == self@.len(),
    {
        self.handles.len()
    }
}

} // verus!
