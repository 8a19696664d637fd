//! The process-wide registry of channels, keyed by (topic, partition).

use vstd::prelude::*;
use crate::channel::Channel;

verus! {

/// A topic name and a partition number, from 1.
pub type ChannelIdentifier = (String, u16);

pub struct ChannelConfig {
    pub name: String,
    pub partitions: u16,
}

pub struct ChannelPartitionMetadata {}

/// What `create_channel` made: one entry per partition.
pub struct ChannelMetadata {
    pub channels: Vec<ChannelPartitionMetadata>,
}

struct ChannelEntry {
    name: String,
    partition: u16,
    channel: Channel,
}

/// A channel that nothing was produced to or consumed from.
pub open spec fn fresh(c: Channel) -> bool {
    &&& c.wf()
    &&& c.records() == Seq::<u32>::empty()
    &&& c.groups().len() == 0
}

/// Handle for the broker's channels.
pub struct App {
    entries: Vec<ChannelEntry>,
}

impl App {
    /// The (topic, partition) keys, in order of first creation.
    pub closed spec fn keys(&self) -> Seq<(Seq<char>, u16)> {
        self.entries@.map_values(|e: ChannelEntry| (e.name@, e.partition))
    }

    /// The channel under each key.
    pub closed spec fn channels(&self) -> Seq<Channel> {
        self.entries@.map_values(|e: ChannelEntry| e.channel)
    }

    pub open spec fn wf(&self) -> bool {
        &&& self.keys().len() == self.channels().len()
        &&& forall|i: int, j: int|
            0 <= i < j < self.keys().len() ==> self.keys()[i] != self.keys()[j]
        &&& forall|i: int| 0 <= i < self.channels().len() ==> #[trigger] self.channels()[i].wf()
    }

    pub open spec fn has(&self, k: (Seq<char>, u16)) -> bool {
        self.keys().contains(k)
    }

    pub open spec fn index_of(&self, k: (Seq<char>, u16)) -> int {
        choose|i: int| 0 <= i < self.keys().len() && self.keys()[i] == k
    }

    pub open spec fn channel_of(&self, k: (Seq<char>, u16)) -> Channel {
        self.channels()[self.index_of(k)]
    }

    pub fn new() -> (r: App)
        ensures
            r.wf(),
            r.keys() == Seq::<(Seq<char>, u16)>::empty(),
    {
        let r = App { entries: Vec::new() };
        assert(r.keys() =~= Seq::<(Seq<char>, u16)>::empty());
        assert(r.channels() =~= Seq::<Channel>::empty());
        r
    }

    /// Where key (`name`, `partition`) stands, if present.
    pub fn channel_index(&self, name: &String, partition: u16) -> (r: Option<usize>)
        requires
            self.wf(),
        ensures
            r is None <==> !self.has((name@, partition)),
            r is Some ==> r->0 < self.keys().len() && r->0 == self.index_of((name@, partition)),
    {
        let ghost k = (name@, partition);
        let mut i: usize = 0;
        while i < self.entries.len()
            invariant
                self.wf(),
                k == (name@, partition),
                i <= self.entries@.len(),
                forall|j: int| 0 <= j < i ==> self.keys()[j] != k,
            decreases self.entries@.len() - i,
        {
            let same_name = self.entries[i].name.eq(name);
            proof {
                assert(self.keys()[i as int] == (self.entries@[i as int].name@, self.entries@[i as int].partition));
            }
            if self.entries[i].partition == partition && same_name {
                proof {
                    assert(self.keys()[i as int] == k);
                    let m = self.index_of(k);
                    assert(0 <= m < self.keys().len() && self.keys()[m] == k);
                    if m != i {
                        assert(self.keys()[m] != self.keys()[i as int]);
                    }
                }
                return Some(i);
            }
            i = i + 1;
        }
        proof {
            if self.has(k) {
                let m = choose|m: int| 0 <= m < self.keys().len() && self.keys()[m] == k;
                assert(self.keys()[m] != k);
            }
        }
        None
    }

    /// The channel at position `i`, to work on in place.
    pub fn channel_mut(&mut self, i: usize) -> (r: &mut Channel)
        requires
            old(self).wf(),
            i < old(self).keys().len(),
        ensures
            *r == old(self).channels()[i as int],
            final(self).keys() == old(self).keys(),
            final(self).channels() == old(self).channels().update(i as int, *final(r)),
    {
        &mut self.entries[i].channel
    }

    /// The channel under `identifier`, if present.
    pub fn get_channel(&self, identifier: &ChannelIdentifier) -> (r: Option<&Channel>)
        requires
            self.wf(),
        ensures
            r is None <==> !self.has((identifier.0@, identifier.1)),
            r is Some ==> *r->0 == self.channel_of((identifier.0@, identifier.1)),
    {
        match self.channel_index(&identifier.0, identifier.1) {
            Some(i) => Some(&self.entries[i].channel),
            None => None,
        }
    }

    /// Puts a fresh channel under (`name`, `partition`), replacing any there.
    fn put_fresh(&mut self, name: &String, partition: u16)
        requires
            old(self).wf(),
        ensures
            final(self).wf(),
            final(self).has((name@, partition)),
            fresh(final(self).channel_of((name@, partition))),
            forall|k: (Seq<char>, u16)|
                k != (name@, partition) ==> (#[trigger] final(self).has(k) == old(self).has(k)) && (
                old(self).has(k) ==> final(self).channel_of(k) == old(self).channel_of(k)),
    {
        let ghost key = (name@, partition);
        match self.channel_index(name, partition) {
            Some(i) => {
                let c = Channel::new();
                self.entries[i].channel = c;
                proof {
                    assert(self.keys() =~= old(self).keys());
                    assert(self.channels() =~= old(self).channels().update(i as int, c));
                    assert forall|a: int| 0 <= a < self.channels().len() implies #[trigger] self.channels()[a].wf() by {
                        if a != i {
                            assert(self.channels()[a] == old(self).channels()[a]);
                        }
                    }
                    assert(self.keys()[i as int] == key);
                }
            },
            None => {
                let c = Channel::new();
                let e = ChannelEntry { name: name.clone(), partition, channel: c };
                self.entries.push(e);
                proof {
                    assert(self.keys() =~= old(self).keys().push(key));
                    assert(self.channels() =~= old(self).channels().push(c));
                    let n = old(self).keys().len() as int;
                    assert(self.keys()[n] == key);
                    assert forall|a: int| 0 <= a < self.channels().len() implies #[trigger] self.channels()[a].wf() by {
                        if a < n {
                            assert(self.channels()[a] == old(self).channels()[a]);
                        }
                    }
                    let m = self.index_of(key);
                    if m != n {
                        assert(old(self).keys()[m] == key);
                    }
                    assert forall|k: (Seq<char>, u16)| k != key && old(self).has(k) implies self.index_of(k) == old(self).index_of(k) by {
                        let a = old(self).index_of(k);
                        assert(self.keys()[a] == k);
                        let b = self.index_of(k);
                        if b != a {
                            assert(self.keys()[b] == k);
                            if b < n {
                                assert(old(self).keys()[b] == k);
                            }
                        }
                    }
                    assert forall|k: (Seq<char>, u16)| k != key implies #[trigger] self.has(k) == old(self).has(k) by {
                        if self.has(k) {
                            let b = choose|b: int| 0 <= b < self.keys().len() && self.keys()[b] == k;
                            assert(old(self).keys()[b] == k);
                        }
                        if old(self).has(k) {
                            let a = choose|a: int| 0 <= a < old(self).keys().len() && old(self).keys()[a] == k;
                            assert(self.keys()[a] == k);
                        }
                    }
                }
            },
        }
    }

    /// Creates partitions `1..=partitions` of topic `name`, each a fresh
    /// channel (replacing any already there). Other keys keep their channels.
    pub fn create_channel(&mut self, config: ChannelConfig) -> (r: Result<ChannelMetadata, ()>)
        requires
            old(self).wf(),
        ensures
            final(self).wf(),
            r is Ok,
            r->Ok_0.channels@.len() == config.partitions,
            forall|p: u16|
                1 <= p <= config.partitions ==> #[trigger] final(self).has((config.name@, p)) && fresh(
                    final(self).channel_of((config.name@, p)),
                ),
            forall|k: (Seq<char>, u16)|
                !(k.0 == config.name@ && 1 <= k.1 <= config.partitions) ==> (#[trigger] final(self).has(k) == old(self).has(k)) && (old(self).has(k) ==> final(self).channel_of(k)
                    == old(self).channel_of(k)),
    {
        let mut channels: Vec<ChannelPartitionMetadata> = Vec::new();
        let mut p: u32 = 1;
        let mut made: usize = 0;
        while made < config.partitions as usize
            invariant
                self.wf(),
                made <= config.partitions,
                p == made + 1,
                channels@.len() == made,
                forall|q: u16|
                    1 <= q < p ==> #[trigger] self.has((config.name@, q)) && fresh(
                        self.channel_of((config.name@, q)),
                    ),
                forall|k: (Seq<char>, u16)|
                    !(k.0 == config.name@ && 1 <= k.1 < p) ==> (#[trigger] self.has(k) == old(self).has(k)) && (old(self).has(k) ==> self.channel_of(k) == old(self).channel_of(k)),
            decreases config.partitions - made,
        {
            self.put_fresh(&config.name, p as u16);
            channels.push(ChannelPartitionMetadata {  });
            made = made + 1;
            p = p + 1;
        }
        Ok(ChannelMetadata { channels })
    }
}

} // verus!
