//! Protocol messages, packets and their wire encoding.

use vstd::prelude::*;
use vstd::utf8::encode_utf8;
use crate::codec::{
    decode_string, decode_u32_vec, enc_string, enc_u32_vec, encode_string, encode_u32_vec,
    lemma_u32_items_len, parse_string, parse_u32_vec, string_size, u32_vec_size, ByteDecoder,
    DecodeError,
};

verus! {

pub type Route = u16;

pub type RouteVersion = u16;

pub type RouteWithVersion = (Route, RouteVersion);

#[derive(Clone, Debug)]
pub struct ConnectRequestV1 {}

#[derive(Clone, Debug)]
pub struct SubscribeTopicRequestV1 {
    pub topic: String,
    pub consumer_group_id: String,
}

#[derive(Clone, Debug)]
pub struct ConsumeV1 {
    pub topic: String,
    pub records: Vec<u32>,
}

#[derive(Clone, Debug)]
pub struct ProduceV1 {
    pub topic: String,
    pub records: Vec<u32>,
}

#[derive(Clone, Debug)]
pub struct ProduceV1Response {}

/// A message, tagged on the wire by its (route, version).
#[derive(Clone, Debug)]
pub enum Message {
    ConnectRequestV1(ConnectRequestV1),
    SubscribeTopicRequestV1(SubscribeTopicRequestV1),
    ConsumeV1(ConsumeV1),
    ProduceV1(ProduceV1),
    ProduceV1Response(ProduceV1Response),
    /// A message under a (route, version) that this protocol does not know.
    Invalid,
}

/// The content of a message, with strings as characters.
pub enum MessageModel {
    ConnectRequestV1,
    SubscribeTopicRequestV1 { topic: Seq<char>, consumer_group_id: Seq<char> },
    ConsumeV1 { topic: Seq<char>, records: Seq<u32> },
    ProduceV1 { topic: Seq<char>, records: Seq<u32> },
    ProduceV1Response,
    Invalid,
}

impl View for Message {
    type V = MessageModel;

    open spec fn view(&self) -> MessageModel {
        match self {
            Message::ConnectRequestV1(_) => MessageModel::ConnectRequestV1,
            Message::SubscribeTopicRequestV1(m) => MessageModel::SubscribeTopicRequestV1 {
                topic: m.topic@,
                consumer_group_id: m.consumer_group_id@,
            },
            Message::ConsumeV1(m) => MessageModel::ConsumeV1 {
                topic: m.topic@,
                records: m.records@,
            },
            Message::ProduceV1(m) => MessageModel::ProduceV1 {
                topic: m.topic@,
                records: m.records@,
            },
            Message::ProduceV1Response(_) => MessageModel::ProduceV1Response,
            Message::Invalid => MessageModel::Invalid,
        }
    }
}

/// The (route, version) under which each known message travels.
pub open spec fn route_of(m: MessageModel) -> RouteWithVersion {
    match m {
        MessageModel::ConnectRequestV1 => (1, 1),
        MessageModel::SubscribeTopicRequestV1 { .. } => (2, 1),
        MessageModel::ConsumeV1 { .. } => (3, 1),
        MessageModel::ProduceV1 { .. } => (4, 1),
        MessageModel::ProduceV1Response => (5, 1),
        MessageModel::Invalid => (0, 0),
    }
}

pub open spec fn known_route(r: RouteWithVersion) -> bool {
    r.1 == 1 && 1 <= r.0 <= 5
}

/// Fields in declaration order, with no tags or padding.
pub open spec fn enc_message(m: MessageModel) -> Seq<u8> {
    match m {
        MessageModel::SubscribeTopicRequestV1 { topic, consumer_group_id } => enc_string(topic)
            + enc_string(consumer_group_id),
        MessageModel::ConsumeV1 { topic, records } => enc_string(topic) + enc_u32_vec(records),
        MessageModel::ProduceV1 { topic, records } => enc_string(topic) + enc_u32_vec(records),
        _ => Seq::empty(),
    }
}

/// Every string and vector length of the message can be written as an i64.
pub open spec fn message_fits(m: MessageModel) -> bool {
    match m {
        MessageModel::SubscribeTopicRequestV1 { topic, consumer_group_id } => encode_utf8(
            topic,
        ).len() <= i64::MAX && encode_utf8(consumer_group_id).len() <= i64::MAX,
        MessageModel::ConsumeV1 { topic, records } => encode_utf8(topic).len() <= i64::MAX
            && records.len() <= i64::MAX,
        MessageModel::ProduceV1 { topic, records } => encode_utf8(topic).len() <= i64::MAX
            && records.len() <= i64::MAX,
        _ => true,
    }
}

pub open spec fn parse_two_strings(b: Seq<u8>) -> Result<(Seq<char>, Seq<char>, nat), DecodeError> {
    match parse_string(b) {
        Err(e) => Err(e),
        Ok((s1, k1)) => match parse_string(b.subrange(k1 as int, b.len() as int)) {
            Err(e) => Err(e),
            Ok((s2, k2)) => Ok((s1, s2, k1 + k2)),
        },
    }
}

pub open spec fn parse_topic_records(b: Seq<u8>) -> Result<(Seq<char>, Seq<u32>, nat), DecodeError> {
    match parse_string(b) {
        Err(e) => Err(e),
        Ok((s, k1)) => match parse_u32_vec(b.subrange(k1 as int, b.len() as int)) {
            Err(e) => Err(e),
            Ok((v, k2)) => Ok((s, v, k1 + k2)),
        },
    }
}

/// What the decoder chosen by `route` reads from the front of `b`; an unknown
/// route reads nothing and gives `Invalid`.
pub open spec fn parse_message(route: RouteWithVersion, b: Seq<u8>) -> Result<
    (MessageModel, nat),
    DecodeError,
> {
    if route == (1u16, 1u16) {
        Ok((MessageModel::ConnectRequestV1, 0))
    } else if route == (2u16, 1u16) {
        match parse_two_strings(b) {
            Err(e) => Err(e),
            Ok((t, g, k)) => Ok(
                (MessageModel::SubscribeTopicRequestV1 { topic: t, consumer_group_id: g }, k),
            ),
        }
    } else if route == (3u16, 1u16) {
        match parse_topic_records(b) {
            Err(e) => Err(e),
            Ok((t, r, k)) => Ok((MessageModel::ConsumeV1 { topic: t, records: r }, k)),
        }
    } else if route == (4u16, 1u16) {
        match parse_topic_records(b) {
            Err(e) => Err(e),
            Ok((t, r, k)) => Ok((MessageModel::ProduceV1 { topic: t, records: r }, k)),
        }
    } else if route == (5u16, 1u16) {
        Ok((MessageModel::ProduceV1Response, 0))
    } else {
        Ok((MessageModel::Invalid, 0))
    }
}

proof fn lemma_advanced_rest(d: ByteDecoder, prev: ByteDecoder, n: nat)
    requires
        prev.wf(),
        d.wf(),
        d.advanced(&prev, n),
    ensures
        d.rest() =~= prev.rest().subrange(n as int, prev.rest().len() as int),
{
}

fn decode_two_strings(d: &mut ByteDecoder) -> (r: Result<(String, String), DecodeError>)
    requires
        old(d).wf(),
    ensures
        match parse_two_strings(old(d).rest()) {
            Ok((s1, s2, n)) => r is Ok && r->Ok_0.0@ == s1 && r->Ok_0.1@ == s2 && final(d).advanced(
                old(d),
                n,
            ) && final(d).wf(),
            Err(e) => r == Err::<(String, String), DecodeError>(e),
        },
{
    let ghost start = *d;
    let s1 = match decode_string(d) {
        Ok(s) => s,
        Err(e) => return Err(e),
    };
    let ghost mid = *d;
    proof {
        let k1 = (mid.spec_offset() - start.spec_offset()) as nat;
        lemma_advanced_rest(mid, start, k1);
    }
    let s2 = match decode_string(d) {
        Ok(s) => s,
        Err(e) => return Err(e),
    };
    Ok((s1, s2))
}

fn decode_topic_records(d: &mut ByteDecoder) -> (r: Result<(String, Vec<u32>), DecodeError>)
    requires
        old(d).wf(),
    ensures
        match parse_topic_records(old(d).rest()) {
            Ok((s, v, n)) => r is Ok && r->Ok_0.0@ == s && r->Ok_0.1@ == v && final(d).advanced(
                old(d),
                n,
            ) && final(d).wf(),
            Err(e) => r == Err::<(String, Vec<u32>), DecodeError>(e),
        },
{
    let ghost start = *d;
    let s = match decode_string(d) {
        Ok(s) => s,
        Err(e) => return Err(e),
    };
    let ghost mid = *d;
    proof {
        let k1 = (mid.spec_offset() - start.spec_offset()) as nat;
        lemma_advanced_rest(mid, start, k1);
    }
    let v = match decode_u32_vec(d) {
        Ok(v) => v,
        Err(e) => return Err(e),
    };
    Ok((s, v))
}

/// Decodes the message that `route` selects.
pub fn decode_message(route: RouteWithVersion, d: &mut ByteDecoder) -> (r: Result<
    Message,
    DecodeError,
>)
    requires
        old(d).wf(),
    ensures
        match parse_message(route, old(d).rest()) {
            Ok((m, n)) => r is Ok && r->Ok_0@ == m && final(d).advanced(old(d), n) && final(d).wf(),
            Err(e) => r == Err::<Message, DecodeError>(e),
        },
{
    if route.0 == 1 && route.1 == 1 {
        Ok(Message::ConnectRequestV1(ConnectRequestV1 {}))
    } else if route.0 == 2 && route.1 == 1 {
        match decode_two_strings(d) {
            Ok((t, g)) => Ok(
                Message::SubscribeTopicRequestV1(
                    SubscribeTopicRequestV1 { topic: t, consumer_group_id: g },
                ),
            ),
            Err(e) => Err(e),
        }
    } else if route.0 == 3 && route.1 == 1 {
        match decode_topic_records(d) {
            Ok((t, v)) => Ok(Message::ConsumeV1(ConsumeV1 { topic: t, records: v })),
            Err(e) => Err(e),
        }
    } else if route.0 == 4 && route.1 == 1 {
        match decode_topic_records(d) {
            Ok((t, v)) => Ok(Message::ProduceV1(ProduceV1 { topic: t, records: v })),
            Err(e) => Err(e),
        }
    } else if route.0 == 5 && route.1 == 1 {
        Ok(Message::ProduceV1Response(ProduceV1Response {}))
    } else {
        Ok(Message::Invalid)
    }
}

impl Message {
    /// Bytes that `serialize` writes.
    pub fn size(&self) -> (r: usize)
        requires
            enc_message(self@).len() <= usize::MAX,
        ensures
            r == enc_message(self@).len(),
    {
        match self {
            Message::SubscribeTopicRequestV1(m) => {
                proof {
                    assert(enc_message(self@).len() == enc_string(m.topic@).len() + enc_string(
                        m.consumer_group_id@,
                    ).len());
                }
                string_size(&m.topic) + string_size(&m.consumer_group_id)
            },
            Message::ConsumeV1(m) => {
                proof {
                    lemma_u32_items_len(m.records@);
                }
                string_size(&m.topic) + u32_vec_size(&m.records)
            },
            Message::ProduceV1(m) => {
                proof {
                    lemma_u32_items_len(m.records@);
                }
                string_size(&m.topic) + u32_vec_size(&m.records)
            },
            _ => 0,
        }
    }

    /// Appends the encoding of the message's fields.
    pub fn serialize(&self, out: &mut Vec<u8>)
        requires
            message_fits(self@),
        ensures
            final(out)@ == old(out)@ + enc_message(self@),
    {
        match self {
            Message::SubscribeTopicRequestV1(m) => {
                encode_string(&m.topic, out);
                encode_string(&m.consumer_group_id, out);
                assert(out@ =~= old(out)@ + enc_message(self@));
            },
            Message::ConsumeV1(m) => {
                encode_string(&m.topic, out);
                encode_u32_vec(&m.records, out);
                assert(out@ =~= old(out)@ + enc_message(self@));
            },
            Message::ProduceV1(m) => {
                encode_string(&m.topic, out);
                encode_u32_vec(&m.records, out);
                assert(out@ =~= old(out)@ + enc_message(self@));
            },
            _ => {
                assert(out@ =~= old(out)@ + enc_message(self@));
            },
        }
    }
}

} // verus!
