//! Decisions of the broker's connection handler: what each inbound packet
//! does to the channels, and what goes back on the socket.

use vstd::prelude::*;
use crate::channel::{consume_opened, polled, rotated, woken, ConsumePoll, Consumer, ConsumerFuture, GroupModel};
use crate::messages::{ConsumeV1, Message, MessageModel, ProduceV1Response};
use crate::packet::{Packet, PacketType};
use crate::registry::App;
use crate::waker::WakerHandle;

verus! {

/// The partition that produce and subscribe requests address.
pub const DEFAULT_PARTITION: u16 = 1;

/// The consumer group that subscriptions read through.
pub const SUBSCRIPTION_GROUP: u128 = 0;

/// What the connection handler does after one inbound packet.
pub enum BrokerAction {
    /// Write this packet back.
    Reply(Packet),
    /// Records were produced (or the topic is missing): write the reply and
    /// wake these waiting consumes.
    Produced { reply: Packet, woken: Vec<WakerHandle> },
    /// Start a push loop for a subscription opened under `context_id`.
    Subscribe { context_id: u32, topic: String, consumer_group_id: String },
}

/// Handles one inbound packet. A produce appends to partition 1 of its topic
/// (nothing happens if the topic is missing) and is answered by a
/// `ProduceV1Response` request packet under the same context id; a subscribe
/// asks for a push loop; anything else is echoed back.
pub fn handle_packet(app: &mut App, packet: Packet) -> (r: BrokerAction)
    requires
        old(app).wf(),
    ensures
        final(app).wf(),
        final(app).keys() == old(app).keys(),
        match packet.message@ {
            MessageModel::ProduceV1 { topic, records } => {
                let k = (topic, DEFAULT_PARTITION);
                &&& r is Produced
                &&& r->Produced_reply.packet_type == PacketType::Request
                &&& r->Produced_reply.context_id == packet.context_id
                &&& r->Produced_reply.route == (5u16, 1u16)
                &&& r->Produced_reply.message@ == MessageModel::ProduceV1Response
                &&& old(app).has(k) ==> {
                    &&& final(app).channel_of(k).records() == old(app).channel_of(k).records()
                        + records
                    &&& r->Produced_woken@ == woken(old(app).channel_of(k).groups())
                    &&& final(app).channel_of(k).groups().len() == old(app).channel_of(k).groups().len()
                    &&& forall|i: int|
                        0 <= i < old(app).channel_of(k).groups().len() ==> #[trigger] final(app).channel_of(k).groups()[i] == (GroupModel {
                            waiters: rotated(old(app).channel_of(k).groups()[i].waiters),
                            ..old(app).channel_of(k).groups()[i]
                        })
                    &&& final(app).channels() == old(app).channels().update(
                        old(app).index_of(k),
                        final(app).channel_of(k),
                    )
                }
                &&& !old(app).has(k) ==> final(app).channels() == old(app).channels()
                    && r->Produced_woken@.len() == 0
            },
            MessageModel::SubscribeTopicRequestV1 { topic, consumer_group_id } => {
                &&& r is Subscribe
                &&& r->Subscribe_context_id == packet.context_id
                &&& r->Subscribe_topic@ == topic
                &&& r->Subscribe_consumer_group_id@ == consumer_group_id
                &&& final(app).channels() == old(app).channels()
            },
            _ => r == BrokerAction::Reply(packet) && final(app).channels() == old(app).channels(),
        },
{
    let context_id = packet.context_id;
    match packet.message {
        Message::ProduceV1(m) => {
            let mut records = m.records;
            let reply = Packet::new_with_context_id(
                context_id,
                (5, 1),
                Message::ProduceV1Response(ProduceV1Response {  }),
            );
            match app.channel_index(&m.topic, DEFAULT_PARTITION) {
                Some(i) => {
                    let ghost before = *app;
                    let ch = app.channel_mut(i);
                    let woken = ch.produce(&mut records);
                    proof {
                        assert(app.channels()[i as int].wf());
                        assert forall|j: int| 0 <= j < app.channels().len() implies #[trigger] app.channels()[j].wf() by {
                            if j != i {
                                assert(app.channels()[j] == before.channels()[j]);
                            }
                        }
                    }
                    BrokerAction::Produced { reply, woken }
                },
                None => BrokerAction::Produced { reply, woken: Vec::new() },
            }
        },
        Message::SubscribeTopicRequestV1(m) => BrokerAction::Subscribe {
            context_id,
            topic: m.topic,
            consumer_group_id: m.consumer_group_id,
        },
        message => BrokerAction::Reply(
            Packet { packet_type: packet.packet_type, route: packet.route, context_id, message },
        ),
    }
}

/// The stream packet that carries one batch of a subscription.
pub fn consume_packet(context_id: u32, topic: String, records: Vec<u32>) -> (r: Packet)
    ensures
        r.packet_type == PacketType::Stream,
        r.context_id == context_id,
        r.route == (3u16, 1u16),
        r.message@ == (MessageModel::ConsumeV1 { topic: topic@, records: records@ }),
{
    Packet::new_stream_packet(context_id, (3, 1), Message::ConsumeV1(ConsumeV1 { topic, records }))
}

/// Opens the consume of a subscription to `topic`: a future on partition 1
/// under the subscription group. `None` when the topic does not exist, which
/// ends the subscription at once.
pub fn open_subscription(app: &mut App, topic: &String) -> (r: Option<ConsumerFuture>)
    requires
        old(app).wf(),
    ensures
        final(app).wf(),
        final(app).keys() == old(app).keys(),
        r is None <==> !old(app).has((topic@, DEFAULT_PARTITION)),
        r is None ==> final(app).channels() == old(app).channels(),
        r is Some ==> consume_opened(
            old(app).channel_of((topic@, DEFAULT_PARTITION)),
            final(app).channel_of((topic@, DEFAULT_PARTITION)),
            SUBSCRIPTION_GROUP,
            r->0,
        ),
        r is Some ==> final(app).channels() == old(app).channels().update(
            old(app).index_of((topic@, DEFAULT_PARTITION)),
            final(app).channel_of((topic@, DEFAULT_PARTITION)),
        ),
{
    match app.channel_index(topic, DEFAULT_PARTITION) {
        Some(i) => {
            let ghost before = *app;
            let ch = app.channel_mut(i);
            let consumer = Consumer::new(SUBSCRIPTION_GROUP);
            let f = consumer.consume(ch);
            proof {
                assert forall|j: int| 0 <= j < app.channels().len() implies #[trigger] app.channels()[j].wf() by {
                    if j != i {
                        assert(app.channels()[j] == before.channels()[j]);
                    }
                }
            }
            Some(f)
        },
        None => None,
    }
}

/// One poll of a subscription's consume. `None` when the topic or the
/// subscription group is gone, which ends the subscription.
pub fn poll_subscription(app: &mut App, topic: &String, future: &mut ConsumerFuture, elapsed: bool) -> (r:
    Option<ConsumePoll>)
    requires
        old(app).wf(),
    ensures
        final(app).wf(),
        final(app).keys() == old(app).keys(),
        final(future).group() == old(future).group(),
        r is None ==> final(app).channels() == old(app).channels(),
        r is None <==> !(old(app).has((topic@, DEFAULT_PARTITION)) && old(app).channel_of(
            (topic@, DEFAULT_PARTITION),
        ).has_group(old(future).group())),
        r is Some ==> polled(
            *old(future),
            *final(future),
            old(app).channel_of((topic@, DEFAULT_PARTITION)),
            final(app).channel_of((topic@, DEFAULT_PARTITION)),
            elapsed,
            r->0,
        ),
        r is Some ==> final(app).channels() == old(app).channels().update(
            old(app).index_of((topic@, DEFAULT_PARTITION)),
            final(app).channel_of((topic@, DEFAULT_PARTITION)),
        ),
{
    match app.channel_index(topic, DEFAULT_PARTITION) {
        Some(i) => {
            let ghost before = *app;
            let ch = app.channel_mut(i);
            if ch.find_group(future.group_id()).is_none() {
                return None;
            }
            let p = future.poll(ch, elapsed);
            proof {
                assert forall|j: int| 0 <= j < app.channels().len() implies #[trigger] app.channels()[j].wf() by {
                    if j != i {
                        assert(app.channels()[j] == before.channels()[j]);
                    }
                }
            }
            Some(p)
        },
        None => None,
    }
}

} // verus!
