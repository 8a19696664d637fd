//! A channel: the storage of one (topic, partition), its consumer groups with
//! their offsets and wake lists, the producer, and the consume future.

use vstd::prelude::*;
use crate::storage::{window, VecStorage};
use crate::waker::{ConsumerWaker, WakerHandle};

verus! {

/// Most records one read of a consume future takes.
pub const BATCH_MAX: usize = 50;

/// How long a consume future batches before it flushes, in milliseconds.
pub const DEFAULT_TIMEOUT_MS: u64 = 1000;

/// Reads and writes records of a channel's storage for producers and
/// consumers; an empty read is reported as no read.
pub struct BaseConsumerStrategy {}

impl BaseConsumerStrategy {
    pub fn new() -> (r: BaseConsumerStrategy) {
        BaseConsumerStrategy {  }
    }

    /// Appends `data` to the storage, leaving it empty.
    pub fn produce(&self, storage: &mut VecStorage, data: &mut Vec<u32>)
        ensures
            final(storage)@ == old(storage)@ + old(data)@,
            final(data)@ == Seq::<u32>::empty(),
    {
        storage.enqueue(data);
    }

    /// Up to `count` records from `offset` on, or `None` when there are none.
    pub fn consume(&self, storage: &VecStorage, offset: usize, count: usize) -> (r: Option<
        Vec<u32>,
    >)
        ensures
            window(storage@, offset as nat, count as nat).len() == 0 ==> r is None,
            window(storage@, offset as nat, count as nat).len() > 0 ==> r is Some && r->0@ == window(
                storage@,
                offset as nat,
                count as nat,
            ),
    {
        let result = storage.peek(offset, count);
        if result.len() == 0 {
            None
        } else {
            Some(result)
        }
    }
}

/// A consumer group of a channel, as the contracts see it.
pub struct GroupModel {
    pub id: u128,
    /// How many records of the channel the group has been given.
    pub offset: nat,
    /// Handles of the consume futures waiting on the group, in wake order.
    pub waiters: Seq<WakerHandle>,
    /// Every record handed out to the group so far, in order.
    pub delivered: Seq<u32>,
}

/// The cursor of one consumer group over its channel's storage.
pub struct ConsumerGroupHandler {
    group_id: u128,
    offset: usize,
    waker: ConsumerWaker,
    delivered: Ghost<Seq<u32>>,
}

impl ConsumerGroupHandler {
    pub closed spec fn model(&self) -> GroupModel {
        GroupModel {
            id: self.group_id,
            offset: self.offset as nat,
            waiters: self.waker@,
            delivered: self.delivered@,
        }
    }

    pub closed spec fn waker_wf(&self) -> bool {
        self.waker.wf()
    }

    /// A fresh waiter handle can still be issued.
    pub closed spec fn can_issue(&self) -> bool {
        self.waker.can_issue()
    }

    pub fn new(group_id: u128) -> (r: ConsumerGroupHandler)
        ensures
            r.model() == (GroupModel {
                id: group_id,
                offset: 0,
                waiters: Seq::empty(),
                delivered: Seq::empty(),
            }),
            r.waker_wf(),
            r.can_issue(),
    {
        ConsumerGroupHandler {
            group_id,
            offset: 0,
            waker: ConsumerWaker::new(),
            delivered: Ghost(Seq::empty()),
        }
    }

    /// Wakes one waiter of the group; see `ConsumerWaker::wake`.
    pub fn wake(&mut self) -> (r: Option<WakerHandle>)
        requires
            old(self).waker_wf(),
        ensures
            final(self).waker_wf(),
            final(self).model() == (GroupModel {
                waiters: rotated(old(self).model().waiters),
                ..old(self).model()
            }),
            old(self).model().waiters.len() == 0 ==> r is None,
            old(self).model().waiters.len() > 0 ==> r == Some(old(self).model().waiters[0]),
    {
        self.waker.wake()
    }

    pub fn group_id(&self) -> (r: u128)
        ensures
            r == self.model().id,
    {
        self.group_id
    }

    pub fn offset(&self) -> (r: usize)
        ensures
            r == self.model().offset,
    {
        self.offset
    }

    /// Reads up to `count` records at the group's offset and moves the offset
    /// past them; `None`, with nothing moved, when there are none.
    pub fn consume(&mut self, strategy: &BaseConsumerStrategy, storage: &VecStorage, count: usize) -> (r:
        Option<Vec<u32>>)
        requires
            old(self).model().offset <= storage@.len(),
        ensures
            ({
                let w = window(storage@, old(self).model().offset, count as nat);
                &&& w.len() == 0 ==> r is None && final(self).model() == old(self).model()
                &&& w.len() > 0 ==> r is Some && r->0@ == w && final(self).model() == (GroupModel {
                    offset: old(self).model().offset + w.len(),
                    delivered: old(self).model().delivered + w,
                    ..old(self).model()
                })
            }),
            final(self).model().offset <= storage@.len(),
            final(self).waker_wf() == old(self).waker_wf(),
    {
        let current_offset = self.offset;
        let total = storage.len();
        let result = strategy.consume(storage, current_offset, count);
        match result {
            Some(data) => {
                self.offset = current_offset + data.len();
                self.delivered = Ghost(self.delivered@ + data@);
                Some(data)
            },
            None => None,
        }
    }
}

/// Rotates a wake list: the head moves to the tail.
pub open spec fn rotated(w: Seq<WakerHandle>) -> Seq<WakerHandle> {
    if w.len() == 0 {
        w
    } else {
        w.skip(1).push(w[0])
    }
}

/// The head of each non-empty wake list, group by group.
pub open spec fn woken(gs: Seq<GroupModel>) -> Seq<WakerHandle>
    decreases gs.len(),
{
    if gs.len() == 0 {
        Seq::empty()
    } else {
        let last = gs.last();
        woken(gs.drop_last()) + if last.waiters.len() > 0 {
            seq![last.waiters[0]]
        } else {
            Seq::empty()
        }
    }
}

/// The in-memory log of one (topic, partition) and its consumer groups.
pub struct Channel {
    storage: VecStorage,
    strategy: BaseConsumerStrategy,
    handlers: Vec<ConsumerGroupHandler>,
}

impl Channel {
    /// Every record produced to the channel, in order.
    pub closed spec fn records(&self) -> Seq<u32> {
        self.storage@
    }

    /// The consumer groups, in order of creation.
    pub closed spec fn groups(&self) -> Seq<GroupModel> {
        self.handlers@.map_values(|h: ConsumerGroupHandler| h.model())
    }

    pub closed spec fn wakers_wf(&self) -> bool {
        forall|i: int| 0 <= i < self.handlers@.len() ==> #[trigger] self.handlers@[i].waker_wf()
    }

    /// Group ids are unique and no group is ahead of the storage.
    pub open spec fn wf(&self) -> bool {
        &&& self.wakers_wf()
        &&& forall|i: int, j: int|
            0 <= i < j < self.groups().len() ==> self.groups()[i].id != self.groups()[j].id
        &&& forall|i: int|
            0 <= i < self.groups().len() ==> #[trigger] self.groups()[i].offset
                <= self.records().len()
        &&& forall|i: int|
            0 <= i < self.groups().len() ==> #[trigger] self.groups()[i].delivered
                == self.records().subrange(0, self.groups()[i].offset as int)
    }

    pub open spec fn has_group(&self, g: u128) -> bool {
        exists|i: int| 0 <= i < self.groups().len() && self.groups()[i].id == g
    }

    /// Where group `g` stands in `groups()`.
    pub open spec fn index_of(&self, g: u128) -> int {
        choose|i: int| 0 <= i < self.groups().len() && self.groups()[i].id == g
    }

    pub open spec fn group(&self, g: u128) -> GroupModel {
        self.groups()[self.index_of(g)]
    }

    /// A fresh waiter handle can still be issued for group `g`.
    pub closed spec fn can_add_waiter(&self, g: u128) -> bool {
        self.handlers@[self.index_of(g)].can_issue()
    }

    /// The groups other than the one at `i` are as in `prev`.
    pub open spec fn others_unchanged(&self, prev: &Channel, i: int) -> bool {
        &&& self.groups().len() == prev.groups().len()
        &&& forall|j: int| 0 <= j < self.groups().len() && j != i ==> self.groups()[j] == prev.groups()[j]
    }

    pub fn new() -> (r: Channel)
        ensures
            r.wf(),
            r.records() == Seq::<u32>::empty(),
            r.groups() == Seq::<GroupModel>::empty(),
    {
        let r = Channel {
            storage: VecStorage::new(),
            strategy: BaseConsumerStrategy::new(),
            handlers: Vec::new(),
        };
        assert(r.groups() =~= Seq::<GroupModel>::empty());
        r
    }

    /// Where group `g` stands, if the channel has it.
    pub fn find_group(&self, g: u128) -> (r: Option<usize>)
        requires
            self.wf(),
        ensures
            r is None <==> !self.has_group(g),
            r is Some ==> r->0 == self.index_of(g) && r->0 < self.groups().len(),
    {
        let mut i: usize = 0;
        while i < self.handlers.len()
            invariant
                self.wf(),
                i <= self.handlers@.len(),
                forall|j: int| 0 <= j < i ==> self.groups()[j].id != g,
            decreases self.handlers@.len() - i,
        {
            if self.handlers[i].group_id() == g {
                proof {
                    assert(self.groups()[i as int].id == g);
                    let k = self.index_of(g);
                    assert(0 <= k < self.groups().len() && self.groups()[k].id == g);
                    if k != i {
                        assert(self.groups()[k].id != self.groups()[i as int].id);
                    }
                }
                return Some(i);
            }
            i = i + 1;
        }
        None
    }

    /// Looks up the handler of group `g`, creating it at offset 0 if it is new.
    pub fn consumer_group_handler(&mut self, g: u128) -> (r: usize)
        requires
            old(self).wf(),
        ensures
            final(self).wf(),
            final(self).records() == old(self).records(),
            final(self).has_group(g),
            r == final(self).index_of(g),
            old(self).has_group(g) ==> final(self).groups() == old(self).groups(),
            !old(self).has_group(g) ==> final(self).groups() == old(self).groups().push(
                GroupModel { id: g, offset: 0, waiters: Seq::empty(), delivered: Seq::empty() },
            ),
            !old(self).has_group(g) ==> final(self).can_add_waiter(g),
            forall|g2: u128| g2 != g ==> #[trigger] final(self).has_group(g2) == old(self).has_group(g2),
            forall|g2: u128|
                old(self).has_group(g2) ==> #[trigger] final(self).index_of(g2) == old(self).index_of(g2)
                    && final(self).can_add_waiter(g2) == old(self).can_add_waiter(g2),
    {
        match self.find_group(g) {
            Some(i) => i,
            None => {
                let h = ConsumerGroupHandler::new(g);
                self.handlers.push(h);
                let i = self.handlers.len() - 1;
                proof {
                    assert(self.groups() =~= old(self).groups().push(h.model()));
                    assert(self.groups()[i as int].id == g);
                    assert(self.records().subrange(0, 0) =~= Seq::<u32>::empty());
                    assert forall|a: int| 0 <= a < self.handlers@.len() implies #[trigger] self.handlers@[a].waker_wf() by {
                        if a < i {
                            assert(self.handlers@[a] == old(self).handlers@[a]);
                        }
                    }
                    let k = self.index_of(g);
                    if k != i {
                        assert(old(self).groups()[k].id == g);
                    }
                    assert(self.handlers@[i as int] == h);
                    assert forall|g2: u128| g2 != g implies #[trigger] self.has_group(g2) == old(self).has_group(g2) by {
                        if self.has_group(g2) {
                            let a = choose|a: int| 0 <= a < self.groups().len() && self.groups()[a].id == g2;
                            assert(a != i);
                            assert(old(self).groups()[a].id == g2);
                        }
                        if old(self).has_group(g2) {
                            let a = choose|a: int| 0 <= a < old(self).groups().len() && old(self).groups()[a].id == g2;
                            assert(self.groups()[a].id == g2);
                        }
                    }
                    assert forall|g2: u128| old(self).has_group(g2) implies #[trigger] self.index_of(g2) == old(self).index_of(g2)
                        && self.can_add_waiter(g2) == old(self).can_add_waiter(g2) by {
                        let a = old(self).index_of(g2);
                        assert(self.groups()[a].id == g2);
                        let b = self.index_of(g2);
                        if b != a {
                            if b == i {
                                assert(old(self).groups()[a].id == g);
                            } else {
                                assert(old(self).groups()[b].id == g2);
                            }
                        }
                        assert(self.handlers@[a] == old(self).handlers@[a]);
                    }
                }
                i
            },
        }
    }

    /// A consumer of group `consumer_id`, creating the group if it is new.
    pub fn consumer(&mut self, consumer_id: u128) -> (r: Consumer)
        requires
            old(self).wf(),
        ensures
            final(self).wf(),
            final(self).records() == old(self).records(),
            final(self).has_group(consumer_id),
            old(self).has_group(consumer_id) ==> final(self).groups() == old(self).groups(),
            !old(self).has_group(consumer_id) ==> final(self).groups() == old(self).groups().push(
                GroupModel {
                    id: consumer_id,
                    offset: 0,
                    waiters: Seq::empty(),
                    delivered: Seq::empty(),
                },
            ),
            r.consumer_id == consumer_id,
            r.timeout == DEFAULT_TIMEOUT_MS,
    {
        self.consumer_group_handler(consumer_id);
        Consumer::new(consumer_id)
    }

    pub fn producer(&self) -> (r: Producer) {
        Producer {  }
    }

    pub fn len(&self) -> (r: usize)
        ensures
            r == self.records().len(),
    {
        self.storage.len()
    }

    /// Up to `count` records from `offset` on, without moving any group.
    pub fn peek(&self, offset: usize, count: usize) -> (r: Vec<u32>)
        ensures
            r@ == window(self.records(), offset as nat, count as nat),
    {
        self.storage.peek(offset, count)
    }

    /// Channels whose groups have the same ids in the same places agree on
    /// which groups exist and where they stand.
    proof fn lemma_same_ids(prev: &Channel, next: &Channel)
        requires
            prev.wf(),
            next.groups().len() == prev.groups().len(),
            forall|j: int| 0 <= j < prev.groups().len() ==> #[trigger] next.groups()[j].id == prev.groups()[j].id,
        ensures
            forall|g: u128| #[trigger] next.has_group(g) == prev.has_group(g),
            forall|g: u128| prev.has_group(g) ==> #[trigger] next.index_of(g) == prev.index_of(g),
    {
        assert forall|g: u128| #[trigger] next.has_group(g) == prev.has_group(g) by {
            if next.has_group(g) {
                let k = choose|k: int| 0 <= k < next.groups().len() && next.groups()[k].id == g;
                assert(prev.groups()[k].id == g);
            }
            if prev.has_group(g) {
                let k = choose|k: int| 0 <= k < prev.groups().len() && prev.groups()[k].id == g;
                assert(next.groups()[k].id == g);
            }
        }
        assert forall|g: u128| prev.has_group(g) implies #[trigger] next.index_of(g) == prev.index_of(g) by {
            let k = prev.index_of(g);
            assert(next.groups()[k].id == g);
            assert(next.has_group(g));
            let k2 = next.index_of(g);
            if k2 != k {
                assert(prev.groups()[k2].id == g);
            }
        }
    }

    /// After handler `i` alone was replaced (same id, within the storage),
    /// the channel stays well formed and every group keeps its place.
    proof fn lemma_replace_handler(prev: &Channel, next: &Channel, i: int)
        requires
            prev.wf(),
            0 <= i < prev.handlers@.len(),
            next.storage@ == prev.storage@,
            next.handlers@ == prev.handlers@.update(i, next.handlers@[i]),
            next.handlers@[i].model().id == prev.handlers@[i].model().id,
            next.handlers@[i].model().offset <= next.records().len(),
            next.handlers@[i].model().delivered == next.records().subrange(
                0,
                next.handlers@[i].model().offset as int,
            ),
            next.handlers@[i].waker_wf(),
        ensures
            next.wf(),
            next.others_unchanged(prev, i),
            next.groups()[i] == next.handlers@[i].model(),
            forall|g: u128| prev.has_group(g) ==> next.has_group(g) && next.index_of(g) == prev.index_of(g),
            forall|g: u128| #[trigger] next.has_group(g) ==> prev.has_group(g),
            forall|g: u128|
                prev.has_group(g) && prev.index_of(g) != i ==> #[trigger] next.group(g) == prev.group(
                    g,
                ) && next.can_add_waiter(g) == prev.can_add_waiter(g),
    {
        assert forall|j: int| 0 <= j < next.groups().len() implies #[trigger] next.groups()[j]
            == if j == i { next.handlers@[i].model() } else { prev.groups()[j] } by {
            assert(next.groups()[j] == next.handlers@[j].model());
            assert(prev.groups()[j] == prev.handlers@[j].model());
        }
        assert forall|a: int| 0 <= a < next.handlers@.len() implies #[trigger] next.handlers@[a].waker_wf() by {
            if a != i {
                assert(next.handlers@[a] == prev.handlers@[a]);
            }
        }
        assert forall|a: int, b: int| 0 <= a < b < next.groups().len() implies next.groups()[a].id
            != next.groups()[b].id by {
            assert(next.groups()[a].id == prev.groups()[a].id);
            assert(next.groups()[b].id == prev.groups()[b].id);
        }
        assert forall|a: int| 0 <= a < next.groups().len() implies #[trigger] next.groups()[a].offset
            <= next.records().len() && next.groups()[a].delivered == next.records().subrange(
            0,
            next.groups()[a].offset as int,
        ) by {
            if a != i {
                assert(next.groups()[a] == prev.groups()[a]);
            }
        }
        assert(next.wf());
        assert forall|g: u128| prev.has_group(g) implies next.has_group(g) && next.index_of(g) == prev.index_of(g) by {
            let k = prev.index_of(g);
            assert(next.groups()[k].id == g);
            let k2 = next.index_of(g);
            if k2 != k {
                assert(next.groups()[k2].id == prev.groups()[k2].id);
            }
        }
        assert forall|g: u128| #[trigger] next.has_group(g) implies prev.has_group(g) by {
            let k = choose|k: int| 0 <= k < next.groups().len() && next.groups()[k].id == g;
            assert(prev.groups()[k].id == g);
        }
        assert forall|g: u128| prev.has_group(g) && prev.index_of(g) != i implies #[trigger] next.group(g)
            == prev.group(g) && next.can_add_waiter(g) == prev.can_add_waiter(g) by {
            let k = prev.index_of(g);
            assert(next.handlers@[k] == prev.handlers@[k]);
        }
    }

    /// Reads up to `count` records for group `g` and moves its offset past them.
    pub fn consume_group(&mut self, g: u128, count: usize) -> (r: Option<Vec<u32>>)
        requires
            old(self).wf(),
            old(self).has_group(g),
        ensures
            final(self).wf(),
            final(self).records() == old(self).records(),
            final(self).has_group(g),
            final(self).index_of(g) == old(self).index_of(g),
            final(self).others_unchanged(old(self), old(self).index_of(g)),
            ({
                let w = window(old(self).records(), old(self).group(g).offset, count as nat);
                &&& w.len() == 0 ==> r is None && final(self).group(g) == old(self).group(g)
                &&& w.len() > 0 ==> r is Some && r->0@ == w && final(self).group(g) == (GroupModel {
                    offset: old(self).group(g).offset + w.len(),
                    delivered: old(self).group(g).delivered + w,
                    ..old(self).group(g)
                })
            }),
    {
        let i = match self.find_group(g) {
            Some(i) => i,
            None => return None,
        };
        let ghost before = *self;
        proof {
            assert(self.groups()[i as int] == self.handlers@[i as int].model());
            assert(self.handlers@[i as int].waker_wf());
        }
        let r = self.handlers[i].consume(&self.strategy, &self.storage, count);
        proof {
            let w = window(before.records(), before.groups()[i as int].offset, count as nat);
            let o = before.groups()[i as int].offset;
            if w.len() > 0 {
                assert(self.records().subrange(0, (o + w.len()) as int) =~= before.records().subrange(
                    0,
                    o as int,
                ) + w);
            }
            Channel::lemma_replace_handler(&before, self, i as int);
        }
        r
    }

    /// Registers a new waiter on group `g`; `None` when no fresh handle is left.
    pub fn add_waiter(&mut self, g: u128) -> (r: Option<WakerHandle>)
        requires
            old(self).wf(),
            old(self).has_group(g),
        ensures
            final(self).wf(),
            final(self).records() == old(self).records(),
            final(self).has_group(g),
            final(self).index_of(g) == old(self).index_of(g),
            final(self).others_unchanged(old(self), old(self).index_of(g)),
            r is None <==> !old(self).can_add_waiter(g),
            r is None ==> final(self).group(g) == old(self).group(g),
            r is Some ==> !old(self).group(g).waiters.contains(r->0) && final(self).group(g) == (
            GroupModel { waiters: old(self).group(g).waiters.push(r->0), ..old(self).group(g) }),
            forall|g2: u128| g2 != g ==> #[trigger] final(self).has_group(g2) == old(self).has_group(g2),
            forall|g2: u128|
                g2 != g && old(self).has_group(g2) ==> #[trigger] final(self).group(g2) == old(self).group(g2)
                    && final(self).can_add_waiter(g2) == old(self).can_add_waiter(g2),
    {
        let i = match self.find_group(g) {
            Some(i) => i,
            None => return None,
        };
        let ghost before = *self;
        proof {
            assert(self.groups()[i as int] == self.handlers@[i as int].model());
            assert(self.handlers@[i as int].waker_wf());
        }
        if !self.handlers[i].waker.has_capacity() {
            proof {
                assert forall|g2: u128| g2 != g implies #[trigger] self.has_group(g2) == old(self).has_group(g2) by {}
            }
            return None;
        }
        let h = self.handlers[i].waker.handle();
        proof {
            assert(before.groups()[i as int].offset <= before.records().len());
            assert(before.groups()[i as int].delivered == before.records().subrange(
                0,
                before.groups()[i as int].offset as int,
            ));
            assert(self.handlers@[i as int].offset == before.handlers@[i as int].offset);
            assert(self.handlers@[i as int].delivered == before.handlers@[i as int].delivered);
            assert forall|g2: u128| g2 != g && before.has_group(g2) implies before.index_of(g2) != i by {
                assert(before.groups()[before.index_of(g2)].id == g2);
            }
            Channel::lemma_replace_handler(&before, self, i as int);
        }
        Some(h)
    }

    /// Deregisters waiter `h` of group `g`.
    pub fn remove_waiter(&mut self, g: u128, h: WakerHandle)
        requires
            old(self).wf(),
            old(self).has_group(g),
        ensures
            final(self).wf(),
            final(self).records() == old(self).records(),
            final(self).has_group(g),
            final(self).index_of(g) == old(self).index_of(g),
            final(self).others_unchanged(old(self), old(self).index_of(g)),
            final(self).group(g).id == old(self).group(g).id,
            final(self).group(g).offset == old(self).group(g).offset,
            final(self).group(g).delivered == old(self).group(g).delivered,
            !final(self).group(g).waiters.contains(h),
            without_waiter(old(self).group(g).waiters, final(self).group(g).waiters, h),
            forall|g2: u128| #[trigger] final(self).has_group(g2) == old(self).has_group(g2),
            forall|g2: u128|
                g2 != g && old(self).has_group(g2) ==> #[trigger] final(self).group(g2) == old(self).group(g2)
                    && final(self).can_add_waiter(g2) == old(self).can_add_waiter(g2),
    {
        let i = match self.find_group(g) {
            Some(i) => i,
            None => return,
        };
        let ghost before = *self;
        proof {
            assert(self.groups()[i as int] == self.handlers@[i as int].model());
            assert(self.handlers@[i as int].waker_wf());
        }
        self.handlers[i].waker.remove(h);
        proof {
            assert forall|g2: u128| g2 != g && before.has_group(g2) implies before.index_of(g2) != i by {
                assert(before.groups()[before.index_of(g2)].id == g2);
            }
            assert(before.groups()[i as int].offset <= before.records().len());
            assert(before.groups()[i as int].delivered == before.records().subrange(
                0,
                before.groups()[i as int].offset as int,
            ));
            assert(self.handlers@[i as int].offset == before.handlers@[i as int].offset);
            assert(self.handlers@[i as int].delivered == before.handlers@[i as int].delivered);
            Channel::lemma_replace_handler(&before, self, i as int);
        }
    }

    /// Appends `data` and wakes one waiter of every group that has one.
    /// Returns the handles woken, group by group.
    pub fn produce(&mut self, data: &mut Vec<u32>) -> (r: Vec<WakerHandle>)
        requires
            old(self).wf(),
        ensures
            final(self).wf(),
            final(self).records() == old(self).records() + old(data)@,
            final(data)@ == Seq::<u32>::empty(),
            final(self).groups().len() == old(self).groups().len(),
            forall|i: int|
                0 <= i < old(self).groups().len() ==> #[trigger] final(self).groups()[i] == (
                GroupModel { waiters: rotated(old(self).groups()[i].waiters), ..old(self).groups()[i] }),
            r@ == woken(old(self).groups()),
            forall|g: u128| #[trigger] final(self).has_group(g) == old(self).has_group(g),
            forall|g: u128|
                old(self).has_group(g) ==> #[trigger] final(self).index_of(g) == old(self).index_of(g),
    {
        self.strategy.produce(&mut self.storage, data);
        let mut woke: Vec<WakerHandle> = Vec::new();
        let n = self.handlers.len();
        let mut i: usize = 0;
        while i < n
            invariant
                n == self.handlers@.len(),
                n == old(self).handlers@.len(),
                i <= n,
                self.records() == old(self).records() + old(data)@,
                self.wakers_wf(),
                forall|j: int|
                    0 <= j < n ==> #[trigger] self.handlers@[j].model().id == old(self).handlers@[j].model().id && self.handlers@[j].model().offset == old(self).handlers@[j].model().offset && self.handlers@[j].model().delivered == old(self).handlers@[j].model().delivered,
                forall|j: int|
                    0 <= j < i ==> #[trigger] self.handlers@[j].model().waiters == rotated(
                        old(self).handlers@[j].model().waiters,
                    ),
                forall|j: int|
                    i <= j < n ==> #[trigger] self.handlers@[j].model().waiters == old(self).handlers@[j].model().waiters,
                woke@ == woken(old(self).groups().subrange(0, i as int)),
            decreases n - i,
        {
            let ghost before = self.handlers@;
            assert(self.handlers@[i as int].waker_wf());
            let w = self.handlers[i].wake();
            assert(self.handlers@ == before.update(i as int, self.handlers@[i as int]));
            proof {
                let gs = old(self).groups().subrange(0, i + 1);
                assert(gs.drop_last() =~= old(self).groups().subrange(0, i as int));
                assert(gs.last() == old(self).groups()[i as int]);
                assert(old(self).groups()[i as int] == old(self).handlers@[i as int].model());
            }
            match w {
                Some(h) => woke.push(h),
                None => {},
            }
            proof {
                assert forall|j: int| 0 <= j < n && j != i implies #[trigger] self.handlers@[j] == before[j] by {}
                assert forall|j: int| 0 <= j < n implies #[trigger] self.handlers@[j].waker_wf() by {
                    if j != i {
                        assert(self.handlers@[j] == before[j]);
                    }
                }
            }
            i = i + 1;
        }
        proof {
            assert(old(self).groups().subrange(0, n as int) =~= old(self).groups());
            assert forall|i: int| 0 <= i < old(self).groups().len() implies #[trigger] self.groups()[i] == (
                GroupModel { waiters: rotated(old(self).groups()[i].waiters), ..old(self).groups()[i] }) by {
                assert(self.groups()[i] == self.handlers@[i].model());
                assert(old(self).groups()[i] == old(self).handlers@[i].model());
                assert(self.handlers@[i].model().id == old(self).handlers@[i].model().id);
                assert(self.handlers@[i].model().delivered == old(self).handlers@[i].model().delivered);
                assert(self.handlers@[i].model().waiters == rotated(
                    old(self).handlers@[i].model().waiters,
                ));
            }
            assert forall|i: int| 0 <= i < self.groups().len() implies #[trigger] self.groups()[i].offset
                <= self.records().len() by {
                assert(self.groups()[i] == self.handlers@[i].model());
                assert(old(self).groups()[i] == old(self).handlers@[i].model());
            }
            assert forall|i: int| 0 <= i < self.groups().len() implies #[trigger] self.groups()[i].delivered
                == self.records().subrange(0, self.groups()[i].offset as int) by {
                assert(self.groups()[i] == self.handlers@[i].model());
                assert(old(self).groups()[i] == old(self).handlers@[i].model());
                assert(self.handlers@[i].model().delivered == old(self).handlers@[i].model().delivered);
                assert(self.records().subrange(0, self.groups()[i].offset as int) =~= old(self).records().subrange(0, self.groups()[i].offset as int));
            }
            assert forall|a: int, b: int| 0 <= a < b < self.groups().len() implies self.groups()[a].id
                != self.groups()[b].id by {
                assert(self.groups()[a] == self.handlers@[a].model());
                assert(self.groups()[b] == self.handlers@[b].model());
                assert(old(self).groups()[a] == old(self).handlers@[a].model());
                assert(old(self).groups()[b] == old(self).handlers@[b].model());
            }
            Channel::lemma_same_ids(old(self), self);
        }
        woke
    }
}

/// Appends records to a channel.
pub struct Producer {}

impl Producer {
    /// Appends `data` to `channel` and wakes one waiter of each of its groups;
    /// returns the handles woken.
    pub fn produce(&mut self, channel: &mut Channel, data: &mut Vec<u32>) -> (r: Vec<WakerHandle>)
        requires
            old(channel).wf(),
        ensures
            final(channel).wf(),
            final(channel).records() == old(channel).records() + old(data)@,
            final(data)@ == Seq::<u32>::empty(),
            final(channel).groups().len() == old(channel).groups().len(),
            forall|i: int|
                0 <= i < old(channel).groups().len() ==> #[trigger] final(channel).groups()[i] == (
                GroupModel {
                    waiters: rotated(old(channel).groups()[i].waiters),
                    ..old(channel).groups()[i]
                }),
            r@ == woken(old(channel).groups()),
            forall|g: u128| #[trigger] final(channel).has_group(g) == old(channel).has_group(g),
            forall|g: u128|
                old(channel).has_group(g) ==> #[trigger] final(channel).index_of(g) == old(channel).index_of(g),
    {
        channel.produce(data)
    }
}

/// Hands out consume futures for one consumer group.
pub struct Consumer {
    pub consumer_id: u128,
    /// Batching time of each consume, in milliseconds.
    pub timeout: u64,
}

impl Consumer {
    pub fn new(consumer_id: u128) -> (r: Consumer)
        ensures
            r.consumer_id == consumer_id,
            r.timeout == DEFAULT_TIMEOUT_MS,
    {
        Consumer { consumer_id, timeout: DEFAULT_TIMEOUT_MS }
    }

    /// A fresh consume on this consumer's group, waiting in its wake list.
    /// Creates the group if the channel does not have it.
    pub fn consume(&self, channel: &mut Channel) -> (r: ConsumerFuture)
        requires
            old(channel).wf(),
        ensures
            consume_opened(*old(channel), *final(channel), self.consumer_id, r),
    {
        let ghost g = self.consumer_id;
        channel.consumer_group_handler(self.consumer_id);
        let ghost mid = *channel;
        let handle = channel.add_waiter(self.consumer_id);
        proof {
            assert(mid.group(g) == group_or_new(old(channel), g));
            assert(can_register(old(channel), g) == mid.can_add_waiter(g));
            assert forall|g2: u128| g2 != g && old(channel).has_group(g2) implies #[trigger] channel.group(
                g2,
            ) == old(channel).group(g2) by {
                assert(mid.has_group(g2));
                assert(mid.index_of(g2) == old(channel).index_of(g2));
                if !old(channel).has_group(g) {
                    assert(mid.groups()[mid.index_of(g2)] == old(channel).groups()[old(channel).index_of(g2)]);
                }
            }
        }
        ConsumerFuture::new(self.consumer_id, handle)
    }
}


/// `after` is `w` without waiter `h`, the others kept in order.
pub open spec fn without_waiter(w: Seq<WakerHandle>, after: Seq<WakerHandle>, h: WakerHandle) -> bool {
    &&& w.contains(h) ==> exists|k: int| 0 <= k < w.len() && w[k] == h && after == w.remove(k)
    &&& !w.contains(h) ==> after == w
}

/// Group `g` of `ch`, or the group that opening a consume on it creates.
pub open spec fn group_or_new(ch: &Channel, g: u128) -> GroupModel {
    if ch.has_group(g) {
        ch.group(g)
    } else {
        GroupModel { id: g, offset: 0, waiters: Seq::empty(), delivered: Seq::empty() }
    }
}

/// A consume opened on group `g` of `ch` can get a waiter handle.
pub open spec fn can_register(ch: &Channel, g: u128) -> bool {
    !ch.has_group(g) || ch.can_add_waiter(g)
}

/// `next` is `prev` after a consume `f` on group `g` was opened: the group
/// exists (created at offset 0 if new), `f` waits at the tail of its wake list
/// unless no handle is left, and nothing else changed.
pub open spec fn consume_opened(prev: Channel, next: Channel, g: u128, f: ConsumerFuture) -> bool {
    let before = group_or_new(&prev, g);
    &&& next.wf()
    &&& next.records() == prev.records()
    &&& next.has_group(g)
    &&& forall|g2: u128| g2 != g ==> #[trigger] next.has_group(g2) == prev.has_group(g2)
    &&& forall|g2: u128| g2 != g && prev.has_group(g2) ==> #[trigger] next.group(g2) == prev.group(g2)
    &&& f.group() == g
    &&& f.buffered() == Seq::<u32>::empty()
    &&& f.taken() == Seq::<u32>::empty()
    &&& (f.waiter() is None <==> !can_register(&prev, g))
    &&& f.waiter() is None ==> next.group(g) == before
    &&& f.waiter() is Some ==> !before.waiters.contains(f.waiter()->0) && next.group(g) == (
    GroupModel { waiters: before.waiters.push(f.waiter()->0), ..before })
}

/// `next`/`next_f` are `prev`/`prev_f` after one poll that returned `r`:
/// up to `BATCH_MAX` new records of the group move into the buffer and the
/// group's offset moves past them; the buffer is yielded when the timeout has
/// elapsed and it is not empty; nothing else changes.
pub open spec fn polled(
    prev_f: ConsumerFuture,
    next_f: ConsumerFuture,
    prev: Channel,
    next: Channel,
    elapsed: bool,
    r: ConsumePoll,
) -> bool {
    let g = prev_f.group();
    let w = window(prev.records(), prev.group(g).offset, BATCH_MAX as nat);
    let buf = prev_f.buffered() + w;
    &&& next_f.group() == g
    &&& next_f.waiter() == prev_f.waiter()
    &&& next.wf()
    &&& next.records() == prev.records()
    &&& next.has_group(g)
    &&& next.index_of(g) == prev.index_of(g)
    &&& next.others_unchanged(&prev, prev.index_of(g))
    &&& forall|g2: u128| #[trigger] next.has_group(g2) == prev.has_group(g2)
    &&& forall|g2: u128| g2 != g && prev.has_group(g2) ==> #[trigger] next.group(g2) == prev.group(g2)
    &&& next.group(g) == (GroupModel {
        offset: prev.group(g).offset + w.len(),
        delivered: prev.group(g).delivered + w,
        ..prev.group(g)
    })
    &&& elapsed && buf.len() > 0 ==> r is Ready && r->Ready_0@ == buf && next_f.buffered()
        == Seq::<u32>::empty() && next_f.taken() == prev_f.taken() + buf
    &&& !(elapsed && buf.len() > 0) ==> r is Pending && next_f.buffered() == buf && next_f.taken()
        == prev_f.taken()
}

/// One poll of a consume future, over what it buffers, the records of the
/// channel and its group's offset: the batch it yields (if any), what it
/// buffers afterwards, and the group's new offset.
pub open spec fn poll_outcome(buffered: Seq<u32>, records: Seq<u32>, offset: nat, elapsed: bool) -> (
    Option<Seq<u32>>,
    Seq<u32>,
    nat,
) {
    let w = window(records, offset, BATCH_MAX as nat);
    let buf = buffered + w;
    if elapsed && buf.len() > 0 {
        (Some(buf), Seq::empty(), offset + w.len())
    } else {
        (None, buf, offset + w.len())
    }
}

/// The outcome of polling a consume future.
pub enum ConsumePoll {
    Pending,
    Ready(Vec<u32>),
}

/// A consume in progress: it gathers records of its group until the timeout
/// has elapsed, then yields them as one non-empty batch.
pub struct ConsumerFuture {
    consumer_id: u128,
    handle: Option<WakerHandle>,
    buffer: Vec<u32>,
    taken: Ghost<Seq<u32>>,
}

impl ConsumerFuture {
    pub closed spec fn group(&self) -> u128 {
        self.consumer_id
    }

    /// Records read for this consume and not yet returned.
    pub closed spec fn buffered(&self) -> Seq<u32> {
        self.buffer@
    }

    pub closed spec fn waiter(&self) -> Option<WakerHandle> {
        self.handle
    }

    /// Every record this future has yielded so far, batch after batch.
    pub closed spec fn taken(&self) -> Seq<u32> {
        self.taken@
    }

    pub fn new(consumer_id: u128, handle: Option<WakerHandle>) -> (r: ConsumerFuture)
        ensures
            r.group() == consumer_id,
            r.waiter() == handle,
            r.buffered() == Seq::<u32>::empty(),
            r.taken() == Seq::<u32>::empty(),
    {
        ConsumerFuture { consumer_id, handle, buffer: Vec::new(), taken: Ghost(Seq::empty()) }
    }

    pub fn group_id(&self) -> (r: u128)
        ensures
            r == self.group(),
    {
        self.consumer_id
    }

    /// The wake-list handle that stands for this future.
    pub fn handle(&self) -> (r: Option<WakerHandle>)
        ensures
            r == self.waiter(),
    {
        self.handle
    }

    /// One poll: reads up to `BATCH_MAX` new records of the group into the
    /// buffer; then, if the timeout has elapsed and the buffer holds records,
    /// yields them all. It never yields an empty batch.
    pub fn poll(&mut self, channel: &mut Channel, elapsed: bool) -> (r: ConsumePoll)
        requires
            old(channel).wf(),
            old(channel).has_group(old(self).group()),
        ensures
            polled(*old(self), *final(self), *old(channel), *final(channel), elapsed, r),
            final(self).group() == old(self).group(),
            final(self).waiter() == old(self).waiter(),
            final(channel).wf(),
            final(channel).records() == old(channel).records(),
            final(channel).has_group(old(self).group()),
            final(channel).index_of(old(self).group()) == old(channel).index_of(old(self).group()),
            final(channel).others_unchanged(old(channel), old(channel).index_of(old(self).group())),
            ({
                let g = old(self).group();
                let w = window(old(channel).records(), old(channel).group(g).offset, BATCH_MAX as nat);
                let buf = old(self).buffered() + w;
                &&& final(channel).group(g) == (GroupModel {
                    offset: old(channel).group(g).offset + w.len(),
                    delivered: old(channel).group(g).delivered + w,
                    ..old(channel).group(g)
                })
                &&& elapsed && buf.len() > 0 ==> r is Ready && r->Ready_0@ == buf
                    && final(self).buffered() == Seq::<u32>::empty()
                    && final(self).taken() == old(self).taken() + buf
                &&& !(elapsed && buf.len() > 0) ==> r is Pending && final(self).buffered() == buf
                    && final(self).taken() == old(self).taken()
                &&& poll_outcome(
                    old(self).buffered(),
                    old(channel).records(),
                    old(channel).group(g).offset,
                    elapsed,
                ) == (if r is Ready {
                    Some(buf)
                } else {
                    None::<Seq<u32>>
                }, final(self).buffered(), final(channel).group(g).offset)
            }),
    {
        let read = channel.consume_group(self.consumer_id, BATCH_MAX);
        match read {
            Some(mut data) => self.buffer.append(&mut data),
            None => {},
        }
        proof {
            let g = old(self).group();
            let w = window(old(channel).records(), old(channel).group(g).offset, BATCH_MAX as nat);
            if w.len() == 0 {
                assert(old(self).buffered() + w =~= old(self).buffered());
                assert(final(channel).group(g) =~= (GroupModel {
                    offset: old(channel).group(g).offset + w.len(),
                    delivered: old(channel).group(g).delivered + w,
                    ..old(channel).group(g)
                }));
            }
        }
        if elapsed && self.buffer.len() > 0 {
            let mut out: Vec<u32> = Vec::new();
            out.append(&mut self.buffer);
            self.taken = Ghost(self.taken@ + out@);
            ConsumePoll::Ready(out)
        } else {
            ConsumePoll::Pending
        }
    }

    /// Ends the consume: its waiter leaves the group's wake list.
    pub fn cancel(self, channel: &mut Channel)
        requires
            old(channel).wf(),
            old(channel).has_group(self.group()),
        ensures
            final(channel).wf(),
            final(channel).records() == old(channel).records(),
            final(channel).others_unchanged(old(channel), old(channel).index_of(self.group())),
            final(channel).group(self.group()).offset == old(channel).group(self.group()).offset,
            self.waiter() is Some ==> !final(channel).group(self.group()).waiters.contains(
                self.waiter()->0,
            ),
            self.waiter() is Some ==> without_waiter(
                old(channel).group(self.group()).waiters,
                final(channel).group(self.group()).waiters,
                self.waiter()->0,
            ),
            self.waiter() is None ==> *final(channel) == *old(channel),
            forall|g2: u128| #[trigger] final(channel).has_group(g2) == old(channel).has_group(g2),
            forall|g2: u128|
                g2 != self.group() && old(channel).has_group(g2) ==> #[trigger] final(channel).group(g2)
                    == old(channel).group(g2),
    {
        match self.handle {
            Some(h) => channel.remove_waiter(self.consumer_id, h),
            None => {},
        }
    }
}

/// Whatever sequence of produces and consumes led to a well-formed channel,
/// the records handed out to a group are exactly the first `offset` records
/// produced, in order: a prefix of the produced sequence, each record once.
pub proof fn lemma_group_sees_prefix(ch: &Channel, g: u128)
    requires
        ch.wf(),
        ch.has_group(g),
    ensures
        ch.group(g).offset <= ch.records().len(),
        ch.group(g).delivered == ch.records().subrange(0, ch.group(g).offset as int),
        ch.group(g).delivered.len() == ch.group(g).offset,
{
    let i = ch.index_of(g);
    assert(ch.groups()[i].offset <= ch.records().len());
    assert(ch.groups()[i].delivered == ch.records().subrange(0, ch.groups()[i].offset as int));
}

/// Groups of one channel read independently: each group's log is a prefix of
/// the same produced history, so two groups agree on every record both have
/// seen, and a group that has caught up has seen the whole history.
pub proof fn lemma_groups_independent(ch: &Channel, g1: u128, g2: u128)
    requires
        ch.wf(),
        ch.has_group(g1),
        ch.has_group(g2),
    ensures
        forall|k: int|
            0 <= k < ch.group(g1).offset && k < ch.group(g2).offset ==> ch.group(g1).delivered[k]
                == ch.group(g2).delivered[k],
        ch.group(g1).offset == ch.records().len() ==> ch.group(g1).delivered == ch.records(),
        ch.group(g2).offset == ch.records().len() ==> ch.group(g2).delivered == ch.records(),
{
    lemma_group_sees_prefix(ch, g1);
    lemma_group_sees_prefix(ch, g2);
    assert(ch.records().subrange(0, ch.records().len() as int) =~= ch.records());
}

/// A subscriber that is the only reader of its group since the group began
/// receives, over all its batches and what it still buffers, exactly the
/// records produced so far up to the group's offset, in order: the
/// concatenation of its batches is a prefix of the concatenated produces.
/// `poll` keeps the premise: it adds the same records to the group's log and
/// to the future's batches and buffer; `produce` touches neither.
pub proof fn lemma_stream_fan_out(ch: &Channel, f: &ConsumerFuture)
    requires
        ch.wf(),
        ch.has_group(f.group()),
        ch.group(f.group()).delivered == f.taken() + f.buffered(),
    ensures
        f.taken() + f.buffered() == ch.records().subrange(0, ch.group(f.group()).offset as int),
        f.taken() == ch.records().subrange(0, f.taken().len() as int),
{
    lemma_group_sees_prefix(ch, f.group());
    let all = f.taken() + f.buffered();
    assert(f.taken() =~= all.subrange(0, f.taken().len() as int));
    assert(ch.records().subrange(0, f.taken().len() as int) =~= ch.records().subrange(
        0,
        ch.group(f.group()).offset as int,
    ).subrange(0, f.taken().len() as int));
}

/// A consume whose group has read every record stays pending, whatever the
/// timer says; after one produce of `r`, the next poll takes `r` into its
/// buffer, and it yields exactly `[r]` once the timeout has elapsed (on that
/// poll, or on a later one).
pub proof fn lemma_consume_wakeup(records: Seq<u32>, r: u32, elapsed: bool)
    ensures
        poll_outcome(Seq::empty(), records, records.len(), elapsed) == (
            None::<Seq<u32>>,
            Seq::<u32>::empty(),
            records.len(),
        ),
        poll_outcome(Seq::empty(), records.push(r), records.len(), false) == (
            None::<Seq<u32>>,
            seq![r],
            records.len() + 1,
        ),
        poll_outcome(Seq::empty(), records.push(r), records.len(), true) == (
            Some(seq![r]),
            Seq::<u32>::empty(),
            records.len() + 1,
        ),
        poll_outcome(seq![r], records.push(r), records.len() + 1, true) == (
            Some(seq![r]),
            Seq::<u32>::empty(),
            records.len() + 1,
        ),
{
    let n = records.len();
    assert(Seq::<u32>::empty() + Seq::<u32>::empty() =~= Seq::<u32>::empty());
    assert(records.push(r).subrange(n as int, n as int + 1) =~= seq![r]);
    assert(Seq::<u32>::empty() + seq![r] =~= seq![r]);
    assert(seq![r] + Seq::<u32>::empty() =~= seq![r]);
}

} // verus!
