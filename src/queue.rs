//! A first-in, first-out queue.

use vstd::prelude::*;
use std::collections::VecDeque;
use crate::waker::WakerHandle;

verus! {

/// Elements leave in the order they came in.
pub struct Queue<T> {
    items: VecDeque<T>,
}

impl<T> View for Queue<T> {
    type V = Seq<T>;

    closed spec fn view(&self) -> Seq<T> {
        self.items@
    }
}

impl<T> Queue<T> {
    pub fn new() -> (r: Queue<T>)
        ensures
            r@ == Seq::<T>::empty(),
    {
        Queue { items: VecDeque::new() }
    }

    /// Adds `elem` at the back.
    pub fn push(&mut self, elem: T)
        ensures
            final(self)@ == old(self)@.push(elem),
    {
        self.items.push_back(elem);
    }

    /// Takes the element at the front, if any.
    pub fn pop(&mut self) -> (r: Option<T>)
        ensures
            old(self)@.len() == 0 ==> r is None && final(self)@ == old(self)@,
            old(self)@.len() > 0 ==> r == Some(old(self)@[0]) && final(self)@ == old(self)@.skip(1),
    {
        self.items.pop_front()
    }

    pub fn len(&self) -> (r: usize)
        ensures
            r == self@.len(),
    {
        self.items.len()
    }
}

/// Waiters in arrival order; a notification goes to the longest waiting.
pub struct WaitList {
    queue: Queue<WakerHandle>,
}

impl View for WaitList {
    type V = Seq<WakerHandle>;

    closed spec fn view(&self) -> Seq<WakerHandle> {
        self.queue@
    }
}

impl WaitList {
    pub fn new() -> (r: WaitList)
        ensures
            r@ == Seq::<WakerHandle>::empty(),
    {
        WaitList { queue: Queue::new() }
    }

    /// Enqueues a waiter.
    pub fn wait(&mut self, waiter: WakerHandle)
        ensures
            final(self)@ == old(self)@.push(waiter),
    {
        self.queue.push(waiter);
    }

    /// Dequeues the longest-waiting waiter, to be woken.
    pub fn notify_one(&mut self) -> (r: Option<WakerHandle>)
        ensures
            old(self)@.len() == 0 ==> r is None && final(self)@ == old(self)@,
            old(self)@.len() > 0 ==> r == Some(old(self)@[0]) && final(self)@ == old(self)@.skip(1),
    {
        self.queue.pop()
    }

    /// Dequeues every waiter, in order, to be woken.
    pub fn notify_all(&mut self) -> (r: Vec<WakerHandle>)
        ensures
            r@ == old(self)@,
            final(self)@ == Seq::<WakerHandle>::empty(),
    {
        let mut woken: Vec<WakerHandle> = Vec::new();
        let ghost all = self.queue@;
        while self.queue.len() > 0
            invariant
                woken@ + self.queue@ == all,
            decreases self.queue@.len(),
        {
            let ghost before = self.queue@;
            match self.queue.pop() {
                Some(w) => {
                    woken.push(w);
                    assert(woken@ + self.queue@ =~= all) by {
                        assert(before =~= seq![w] + self.queue@);
                    }
                },
                None => {},
            }
        }
        assert(woken@ =~= all);
        woken
    }
}

} // verus!
