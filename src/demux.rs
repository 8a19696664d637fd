//! Decisions of the client connection's receive loop: which waiting request
//! or open stream each inbound packet belongs to.

use vstd::prelude::*;
use crate::packet::PacketType;
use std::collections::HashSet;
use vstd::std_specs::hash::group_hash_axioms;

verus! {

/// Where an inbound packet goes.
#[derive(Clone, Copy, Debug, PartialEq, Eq, Structural)]
pub enum Delivery {
    /// To the request waiting under this context id, which is then done.
    Response(u32),
    /// To the stream open under this context id, which stays open.
    Stream(u32),
    /// Nobody waits for it.
    Drop,
}

/// Context ids of the requests awaiting a response and of the open streams.
pub struct Demux {
    requests: HashSet<u32>,
    streams: HashSet<u32>,
}

pub open spec fn distinct(s: Seq<u32>) -> bool {
    forall|i: int, j: int| 0 <= i < j < s.len() ==> s[i] != s[j]
}

/// Routing of one packet, over the sets of waiting requests and open
/// streams: the delivery and the requests still waiting after it.
pub open spec fn route_step(pending: Set<u32>, streams: Set<u32>, t: PacketType, c: u32) -> (
    Delivery,
    Set<u32>,
) {
    match t {
        PacketType::Request => if pending.contains(c) {
            (Delivery::Response(c), pending.remove(c))
        } else {
            (Delivery::Drop, pending)
        },
        PacketType::Stream => if streams.contains(c) {
            (Delivery::Stream(c), pending)
        } else {
            (Delivery::Drop, pending)
        },
    }
}

/// Responses arriving under the ids of `order`, one after another: what each
/// is delivered to.
pub open spec fn route_responses(pending: Set<u32>, streams: Set<u32>, order: Seq<u32>) -> Seq<
    Delivery,
>
    decreases order.len(),
{
    if order.len() == 0 {
        Seq::empty()
    } else {
        let (d, rest) = route_step(pending, streams, PacketType::Request, order[0]);
        seq![d] + route_responses(rest, streams, order.skip(1))
    }
}

impl Demux {
    /// Context ids of the requests awaiting their response.
    pub closed spec fn pending(&self) -> Set<u32> {
        self.requests@
    }

    /// Context ids of the open streams.
    pub closed spec fn open_streams(&self) -> Set<u32> {
        self.streams@
    }

    pub fn new() -> (r: Demux)
        ensures
            r.pending() == Set::<u32>::empty(),
            r.open_streams() == Set::<u32>::empty(),
    {
        Demux { requests: HashSet::new(), streams: HashSet::new() }
    }

    /// Waits for a response under `context_id`; `false`, with nothing
    /// changed, if a request already waits under it.
    pub fn register_request(&mut self, context_id: u32) -> (r: bool)
        ensures
            r == !old(self).pending().contains(context_id),
            final(self).pending() == old(self).pending().insert(context_id),
            final(self).open_streams() == old(self).open_streams(),
    {
        broadcast use group_hash_axioms;
        self.requests.insert(context_id)
    }

    /// Opens a stream under `context_id`; `false`, with nothing changed, if
    /// one is open under it already.
    pub fn register_stream(&mut self, context_id: u32) -> (r: bool)
        ensures
            r == !old(self).open_streams().contains(context_id),
            final(self).open_streams() == old(self).open_streams().insert(context_id),
            final(self).pending() == old(self).pending(),
    {
        broadcast use group_hash_axioms;
        self.streams.insert(context_id)
    }

    /// Routes one inbound packet: a response goes to the request waiting
    /// under its context id, which stops waiting; a stream packet goes to the
    /// stream open under its context id; the rest is dropped.
    pub fn route(&mut self, packet_type: PacketType, context_id: u32) -> (r: Delivery)
        ensures
            (r, final(self).pending()) == route_step(
                old(self).pending(),
                old(self).open_streams(),
                packet_type,
                context_id,
            ),
            final(self).open_streams() == old(self).open_streams(),
    {
        broadcast use group_hash_axioms;
        match packet_type {
            PacketType::Request => {
                if self.requests.remove(&context_id) {
                    assert(self.pending() =~= old(self).pending().remove(context_id));
                    Delivery::Response(context_id)
                } else {
                    assert(self.pending() =~= old(self).pending());
                    Delivery::Drop
                }
            },
            PacketType::Stream => {
                if self.streams.contains(&context_id) {
                    Delivery::Stream(context_id)
                } else {
                    Delivery::Drop
                }
            },
        }
    }

    /// Closes the stream under `context_id` (its receiver went away).
    pub fn close_stream(&mut self, context_id: u32)
        ensures
            final(self).open_streams() == old(self).open_streams().remove(context_id),
            final(self).pending() == old(self).pending(),
    {
        broadcast use group_hash_axioms;
        self.streams.remove(&context_id);
        assert(self.open_streams() =~= old(self).open_streams().remove(context_id));
    }

    /// Stops waiting for a response under `context_id` (the send failed).
    pub fn cancel_request(&mut self, context_id: u32)
        ensures
            final(self).pending() == old(self).pending().remove(context_id),
            final(self).open_streams() == old(self).open_streams(),
    {
        broadcast use group_hash_axioms;
        self.requests.remove(&context_id);
        assert(self.pending() =~= old(self).pending().remove(context_id));
    }
}

/// Requests sent under distinct context ids each get their own response,
/// whatever order the responses arrive in: routing responses under the ids
/// of `order` delivers the k-th to the request of the k-th id.
pub proof fn lemma_responses_correlate(pending: Set<u32>, streams: Set<u32>, order: Seq<u32>)
    requires
        distinct(order),
        forall|k: int| 0 <= k < order.len() ==> pending.contains(#[trigger] order[k]),
    ensures
        route_responses(pending, streams, order) == order.map_values(|c: u32| Delivery::Response(c)),
    decreases order.len(),
{
    if order.len() > 0 {
        let c = order[0];
        let rest = order.skip(1);
        assert forall|k: int| 0 <= k < rest.len() implies pending.remove(c).contains(#[trigger] rest[k]) by {
            assert(rest[k] == order[k + 1]);
            assert(order[0] != order[k + 1]);
        }
        assert forall|a: int, b: int| 0 <= a < b < rest.len() implies rest[a] != rest[b] by {
            assert(rest[a] == order[a + 1] && rest[b] == order[b + 1]);
        }
        lemma_responses_correlate(pending.remove(c), streams, rest);
        assert(route_responses(pending, streams, order) =~= order.map_values(
            |c: u32| Delivery::Response(c),
        ));
    } else {
        assert(route_responses(pending, streams, order) =~= order.map_values(
            |c: u32| Delivery::Response(c),
        ));
    }
}

} // verus!
