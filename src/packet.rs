//! Packets and their framing on the wire:
//! `[i32 payload_size][u8 packet_type][u16 route][u16 version][u32 context_id][message]`,
//! where `payload_size` counts every byte after itself.

use vstd::prelude::*;
use crate::codec::{
    decode_i32, decode_u16, decode_u32, decode_u8, enc_i32, enc_string, enc_u16, enc_u32,
    enc_u32_vec, encode_i32, encode_u16, encode_u32, encode_u8, lemma_round_trip_i32,
    lemma_round_trip_string, lemma_round_trip_u16, lemma_round_trip_u32,
    lemma_round_trip_u32_vec, lemma_u32_items_len, u16_of_be, u32_of_be, ByteDecoder,
    DecodeError,
};
use crate::messages::{
    decode_message, enc_message, known_route, message_fits, parse_message, parse_topic_records,
    parse_two_strings, route_of, Message, MessageModel, RouteWithVersion,
};

verus! {

/// Relies on rand::random (rand 0.8): a value drawn from the thread-local
/// generator. Nothing is known of it.
pub assume_specification<T>[ rand::random::<T> ]() -> (r: T)
    where
        rand::distributions::Standard: rand::distributions::Distribution<T>,
;

/// Whether a packet answers a request or belongs to a stream.
#[derive(Clone, Copy, Debug, PartialEq, Eq, Structural)]
pub enum PacketType {
    Request,
    Stream,
}

/// The wire byte of a packet type.
pub open spec fn packet_type_byte(t: PacketType) -> u8 {
    match t {
        PacketType::Request => 0,
        PacketType::Stream => 1,
    }
}

pub open spec fn packet_type_of_byte(b: u8) -> PacketType {
    if b == 0 {
        PacketType::Request
    } else {
        PacketType::Stream
    }
}

impl PacketType {
    pub fn to_byte(self) -> (r: u8)
        ensures
            r == packet_type_byte(self),
    {
        match self {
            PacketType::Request => 0,
            PacketType::Stream => 1,
        }
    }

    /// The packet type with wire byte `b`, if any.
    pub fn from_byte(b: u8) -> (r: Option<PacketType>)
        ensures
            b <= 1 ==> r == Some(packet_type_of_byte(b)),
            b > 1 ==> r is None,
    {
        if b == 0 {
            Some(PacketType::Request)
        } else if b == 1 {
            Some(PacketType::Stream)
        } else {
            None
        }
    }
}

#[derive(Debug)]
pub struct Packet {
    pub packet_type: PacketType,
    pub route: RouteWithVersion,
    pub context_id: u32,
    pub message: Message,
}

impl Clone for Packet {
    fn clone(&self) -> (r: Packet)
        ensures
            r.packet_type == self.packet_type,
            r@.route == self@.route,
            r.context_id == self.context_id,
    {
        Packet {
            packet_type: self.packet_type,
            route: self.route,
            context_id: self.context_id,
            message: self.message.clone(),
        }
    }
}

pub struct PacketModel {
    pub packet_type: PacketType,
    pub route: RouteWithVersion,
    pub context_id: u32,
    pub message: MessageModel,
}

impl View for Packet {
    type V = PacketModel;

    open spec fn view(&self) -> PacketModel {
        PacketModel {
            packet_type: self.packet_type,
            route: self.route,
            context_id: self.context_id,
            message: self.message@,
        }
    }
}

/// A frame around `body`: the size, the header, then the body.
pub open spec fn enc_frame(
    t: PacketType,
    route: RouteWithVersion,
    context_id: u32,
    body: Seq<u8>,
) -> Seq<u8> {
    enc_i32((9 + body.len()) as i32) + seq![packet_type_byte(t)] + enc_u16(route.0) + enc_u16(
        route.1,
    ) + enc_u32(context_id) + body
}

pub open spec fn enc_packet(p: PacketModel) -> Seq<u8> {
    enc_frame(p.packet_type, p.route, p.context_id, enc_message(p.message))
}

/// The packet can be written: its lengths fit their prefixes.
pub open spec fn packet_fits(p: PacketModel) -> bool {
    &&& message_fits(p.message)
    &&& 9 + enc_message(p.message).len() <= i32::MAX
}

/// The packet can be written and read back: it fits, and its route is the
/// one of its (known) message.
pub open spec fn packet_wf(p: PacketModel) -> bool {
    &&& packet_fits(p)
    &&& p.message != MessageModel::Invalid
    &&& p.route == route_of(p.message)
}

/// What one decode step makes of the front of a buffer.
pub enum FrameModel {
    /// Not a whole frame yet; nothing is consumed.
    Incomplete,
    /// A frame under an unknown route, dropped; its bytes are consumed.
    Skipped(nat),
    /// A packet, and the bytes its frame took.
    Packet(PacketModel, nat),
}

/// The payload size declared at the front of `b`.
pub open spec fn declared_size(b: Seq<u8>) -> int {
    (u32_of_be(b) as i32) as int
}

pub open spec fn parse_frame(b: Seq<u8>) -> Result<FrameModel, DecodeError> {
    if b.len() < 4 {
        Ok(FrameModel::Incomplete)
    } else if b.len() < declared_size(b) + 4 {
        Ok(FrameModel::Incomplete)
    } else if declared_size(b) < 9 {
        Err(DecodeError::BadFrameSize)
    } else if b[4] > 1 {
        Err(DecodeError::UnknownPacketType)
    } else {
        let total = (declared_size(b) + 4) as nat;
        let route = (u16_of_be(b.subrange(5, 7)), u16_of_be(b.subrange(7, 9)));
        if !known_route(route) {
            Ok(FrameModel::Skipped(total))
        } else {
            match parse_message(route, b.subrange(13, total as int)) {
                Err(e) => Err(e),
                Ok((m, _)) => Ok(
                    FrameModel::Packet(
                        PacketModel {
                            packet_type: packet_type_of_byte(b[4]),
                            route,
                            context_id: u32_of_be(b.subrange(9, 13)),
                            message: m,
                        },
                        total,
                    ),
                ),
            }
        }
    }
}

/// The outcome of one decode step over a buffer.
pub enum Frame {
    Incomplete,
    Skipped(usize),
    Packet(Packet, usize),
}

impl View for Frame {
    type V = FrameModel;

    open spec fn view(&self) -> FrameModel {
        match self {
            Frame::Incomplete => FrameModel::Incomplete,
            Frame::Skipped(n) => FrameModel::Skipped(*n as nat),
            Frame::Packet(p, n) => FrameModel::Packet(p@, *n as nat),
        }
    }
}

pub open spec fn frame_matches(r: Result<Frame, DecodeError>, spec: Result<FrameModel, DecodeError>) -> bool {
    match spec {
        Ok(f) => r is Ok && r->Ok_0@ == f,
        Err(e) => r is Err && r->Err_0 == e,
    }
}

/// Decodes the frame at the front of `buf`, if it is all there.
pub fn decode_frame(buf: &[u8]) -> (r: Result<Frame, DecodeError>)
    ensures
        frame_matches(r, parse_frame(buf@)),
{
    let mut d = ByteDecoder::new(buf);
    let size = match decode_i32(&mut d) {
        Ok(s) => s,
        Err(_) => return Ok(Frame::Incomplete),
    };
    assert(buf@.subrange(0, buf@.len() as int) =~= buf@);
    if size >= 0 && (buf.len() as u64) < size as u64 + 4 {
        return Ok(Frame::Incomplete);
    }
    if size < 9 {
        return Err(DecodeError::BadFrameSize);
    }
    let total = size as usize + 4;
    let ghost b = buf@;
    let t = match decode_u8(&mut d) {
        Ok(t) => t,
        Err(e) => return Err(e),
    };
    assert(t == b[4]);
    let packet_type = match PacketType::from_byte(t) {
        Some(pt) => pt,
        None => return Err(DecodeError::UnknownPacketType),
    };
    let r0 = match decode_u16(&mut d) {
        Ok(v) => v,
        Err(e) => return Err(e),
    };
    assert(b.subrange(5, b.len() as int).subrange(0, 2) =~= b.subrange(5, 7));
    let r1 = match decode_u16(&mut d) {
        Ok(v) => v,
        Err(e) => return Err(e),
    };
    assert(b.subrange(7, b.len() as int).subrange(0, 2) =~= b.subrange(7, 9));
    let context_id = match decode_u32(&mut d) {
        Ok(v) => v,
        Err(e) => return Err(e),
    };
    assert(b.subrange(9, b.len() as int).subrange(0, 4) =~= b.subrange(9, 13));
    assert(u16_of_be(b.subrange(5, b.len() as int)) == u16_of_be(b.subrange(5, 7)));
    assert(u16_of_be(b.subrange(7, b.len() as int)) == u16_of_be(b.subrange(7, 9)));
    assert(u32_of_be(b.subrange(9, b.len() as int)) == u32_of_be(b.subrange(9, 13)));
    let route: RouteWithVersion = (r0, r1);
    if !(r1 == 1 && 1 <= r0 && r0 <= 5) {
        return Ok(Frame::Skipped(total));
    }
    let body = &buf[13..total];
    let mut md = ByteDecoder::new(body);
    assert(md.rest() =~= b.subrange(13, total as int));
    match decode_message(route, &mut md) {
        Ok(message) => Ok(Frame::Packet(Packet { packet_type, route, context_id, message }, total)),
        Err(e) => Err(e),
    }
}

impl Packet {
    /// A request packet under a fresh random context id.
    pub fn new(route: RouteWithVersion, message: Message) -> (r: Packet)
        ensures
            r.packet_type == PacketType::Request,
            r@.route == route,
            r.message == message,
    {
        Packet { packet_type: PacketType::Request, route, context_id: rand::random::<u32>(), message }
    }

    pub fn new_with_context_id(context_id: u32, route: RouteWithVersion, message: Message) -> (r:
        Packet)
        ensures
            r.packet_type == PacketType::Request,
            r@.route == route,
            r.context_id == context_id,
            r.message == message,
    {
        Packet { packet_type: PacketType::Request, route, context_id, message }
    }

    pub fn new_stream_packet(context_id: u32, route: RouteWithVersion, message: Message) -> (r:
        Packet)
        ensures
            r.packet_type == PacketType::Stream,
            r@.route == route,
            r.context_id == context_id,
            r.message == message,
    {
        Packet { packet_type: PacketType::Stream, route, context_id, message }
    }

    /// A reply to this packet: same type and context id, new route and message.
    pub fn response(&self, route: RouteWithVersion, message: Message) -> (r: Packet)
        ensures
            r.packet_type == self.packet_type,
            r@.route == route,
            r.context_id == self.context_id,
            r.message == message,
    {
        Packet { packet_type: self.packet_type, route, context_id: self.context_id, message }
    }

    pub fn route(&self) -> (r: RouteWithVersion)
        ensures
            r == self@.route,
    {
        self.route
    }

    /// The payload size: every byte of the frame after the size itself.
    pub fn size(&self) -> (r: usize)
        requires
            packet_fits(self@),
        ensures
            r == enc_packet(self@).len() - 4,
    {
        9 + self.message.size()
    }

    /// Appends the whole frame of this packet.
    pub fn serialize(&self, out: &mut Vec<u8>)
        requires
            packet_fits(self@),
        ensures
            final(out)@ == old(out)@ + enc_packet(self@),
    {
        let size = self.size();
        encode_i32(size as i32, out);
        encode_u8(self.packet_type.to_byte(), out);
        encode_u16(self.route.0, out);
        encode_u16(self.route.1, out);
        encode_u32(self.context_id, out);
        self.message.serialize(out);
        assert(out@ =~= old(out)@ + enc_packet(self@));
    }
}

// ---------------------------------------------------------------------------
// The codec of a framed connection
// ---------------------------------------------------------------------------

/// Largest message encoding that still fits a frame's i32 size.
pub const MAX_MESSAGE_SIZE: u64 = 2147483638;

/// Why a packet could not be written.
#[derive(Clone, Copy, Debug, PartialEq, Eq, Structural)]
pub enum EncodeError {
    /// The frame would be longer than its i32 size field can say.
    FrameTooLarge,
}

fn string_len(s: &String) -> (r: u64)
    ensures
        r == vstd::utf8::encode_utf8(s@).len(),
{
    s.as_str().as_bytes().len() as u64
}

proof fn lemma_bounded_message_fits(m: MessageModel)
    requires
        enc_message(m).len() <= MAX_MESSAGE_SIZE,
    ensures
        message_fits(m),
{
    match m {
        MessageModel::SubscribeTopicRequestV1 { topic, consumer_group_id } => {
            assert(enc_message(m).len() == enc_string(topic).len() + enc_string(consumer_group_id).len());
        },
        MessageModel::ConsumeV1 { topic, records } => {
            lemma_u32_items_len(records);
            assert(enc_message(m).len() == enc_string(topic).len() + enc_u32_vec(records).len());
        },
        MessageModel::ProduceV1 { topic, records } => {
            lemma_u32_items_len(records);
            assert(enc_message(m).len() == enc_string(topic).len() + enc_u32_vec(records).len());
        },
        _ => {},
    }
}

/// The size of the message's encoding, when it fits a frame.
fn bounded_message_size(m: &Message) -> (r: Option<u64>)
    ensures
        r is Some <==> enc_message(m@).len() <= MAX_MESSAGE_SIZE,
        r is Some ==> r->0 == enc_message(m@).len(),
{
    match m {
        Message::SubscribeTopicRequestV1(x) => {
            let t = string_len(&x.topic);
            let g = string_len(&x.consumer_group_id);
            if t > MAX_MESSAGE_SIZE || g > MAX_MESSAGE_SIZE {
                return None;
            }
            let size = 16 + t + g;
            if size > MAX_MESSAGE_SIZE {
                None
            } else {
                Some(size)
            }
        },
        Message::ConsumeV1(x) => {
            proof {
                lemma_u32_items_len(x.records@);
            }
            let t = string_len(&x.topic);
            let n = x.records.len() as u64;
            if t > MAX_MESSAGE_SIZE || n > MAX_MESSAGE_SIZE {
                return None;
            }
            let size = 16 + t + 4 * n;
            if size > MAX_MESSAGE_SIZE {
                None
            } else {
                Some(size)
            }
        },
        Message::ProduceV1(x) => {
            proof {
                lemma_u32_items_len(x.records@);
            }
            let t = string_len(&x.topic);
            let n = x.records.len() as u64;
            if t > MAX_MESSAGE_SIZE || n > MAX_MESSAGE_SIZE {
                return None;
            }
            let size = 16 + t + 4 * n;
            if size > MAX_MESSAGE_SIZE {
                None
            } else {
                Some(size)
            }
        },
        _ => Some(0),
    }
}

/// Reads and writes framed packets.
pub struct FlowCodec {}

impl FlowCodec {
    pub fn new() -> (r: FlowCodec) {
        FlowCodec {  }
    }

    /// One decode step over the buffered bytes `src`; see `parse_frame`.
    pub fn decode(&mut self, src: &[u8]) -> (r: Result<Frame, DecodeError>)
        ensures
            frame_matches(r, parse_frame(src@)),
    {
        decode_frame(src)
    }

    /// Appends the frame of `packet`, or refuses it when it is too large.
    pub fn encode(&mut self, packet: &Packet, out: &mut Vec<u8>) -> (r: Result<(), EncodeError>)
        ensures
            r is Ok <==> packet_fits(packet@),
            r is Ok ==> final(out)@ == old(out)@ + enc_packet(packet@),
            r is Err ==> final(out)@ == old(out)@,
    {
        match bounded_message_size(&packet.message) {
            Some(_) => {
                proof {
                    lemma_bounded_message_fits(packet.message@);
                }
                packet.serialize(out);
                Ok(())
            },
            None => Err(EncodeError::FrameTooLarge),
        }
    }
}

// ---------------------------------------------------------------------------
// Laws of the framing
// ---------------------------------------------------------------------------

proof fn lemma_two_strings_round_trip(t: Seq<char>, g: Seq<char>, rest: Seq<u8>)
    requires
        message_fits(MessageModel::SubscribeTopicRequestV1 { topic: t, consumer_group_id: g }),
    ensures
        parse_two_strings(enc_string(t) + enc_string(g) + rest) == Ok::<
            (Seq<char>, Seq<char>, nat),
            DecodeError,
        >((t, g, enc_string(t).len() + enc_string(g).len())),
{
    let b = enc_string(t) + enc_string(g) + rest;
    let tail = enc_string(g) + rest;
    assert(b =~= enc_string(t) + tail);
    lemma_round_trip_string(t, tail);
    let k1 = enc_string(t).len();
    assert(b.subrange(k1 as int, b.len() as int) =~= tail);
    lemma_round_trip_string(g, rest);
}

proof fn lemma_topic_records_round_trip(t: Seq<char>, v: Seq<u32>, rest: Seq<u8>)
    requires
        message_fits(MessageModel::ConsumeV1 { topic: t, records: v }),
    ensures
        parse_topic_records(enc_string(t) + enc_u32_vec(v) + rest) == Ok::<
            (Seq<char>, Seq<u32>, nat),
            DecodeError,
        >((t, v, enc_string(t).len() + enc_u32_vec(v).len())),
{
    let b = enc_string(t) + enc_u32_vec(v) + rest;
    let tail = enc_u32_vec(v) + rest;
    assert(b =~= enc_string(t) + tail);
    lemma_round_trip_string(t, tail);
    let k1 = enc_string(t).len();
    assert(b.subrange(k1 as int, b.len() as int) =~= tail);
    lemma_round_trip_u32_vec(v, rest);
}

/// Decoding an encoded known message under its route gives it back.
#[verifier::rlimit(40)]
pub proof fn lemma_message_round_trip(m: MessageModel, rest: Seq<u8>)
    requires
        message_fits(m),
        m != MessageModel::Invalid,
    ensures
        parse_message(route_of(m), enc_message(m) + rest) == Ok::<(MessageModel, nat), DecodeError>(
            (m, enc_message(m).len()),
        ),
{
    match m {
        MessageModel::SubscribeTopicRequestV1 { topic, consumer_group_id } => {
            lemma_two_strings_round_trip(topic, consumer_group_id, rest);
        },
        MessageModel::ConsumeV1 { topic, records } => {
            lemma_topic_records_round_trip(topic, records, rest);
        },
        MessageModel::ProduceV1 { topic, records } => {
            lemma_topic_records_round_trip(topic, records, rest);
        },
        _ => {},
    }
}

/// What a decoder sees at the front of an encoded frame.
proof fn lemma_frame_fields(
    t: PacketType,
    route: RouteWithVersion,
    context_id: u32,
    body: Seq<u8>,
    rest: Seq<u8>,
)
    requires
        9 + body.len() <= i32::MAX,
    ensures
        ({
            let b = enc_frame(t, route, context_id, body) + rest;
            &&& b.len() == 13 + body.len() + rest.len()
            &&& declared_size(b) == 9 + body.len()
            &&& b[4] == packet_type_byte(t)
            &&& u16_of_be(b.subrange(5, 7)) == route.0
            &&& u16_of_be(b.subrange(7, 9)) == route.1
            &&& u32_of_be(b.subrange(9, 13)) == context_id
            &&& b.subrange(13, 13 + body.len() as int) == body
        }),
{
    let b = enc_frame(t, route, context_id, body) + rest;
    let size = (9 + body.len()) as i32;
    let after = b.subrange(4, b.len() as int);
    assert(b =~= enc_i32(size) + after);
    lemma_round_trip_i32(size, after);
    lemma_round_trip_u16(route.0, Seq::empty());
    assert(b.subrange(5, 7) =~= enc_u16(route.0) + Seq::<u8>::empty());
    lemma_round_trip_u16(route.1, Seq::empty());
    assert(b.subrange(7, 9) =~= enc_u16(route.1) + Seq::<u8>::empty());
    lemma_round_trip_u32(context_id, Seq::empty());
    assert(b.subrange(9, 13) =~= enc_u32(context_id) + Seq::<u8>::empty());
    assert(b.subrange(13, 13 + body.len() as int) =~= body);
}

/// Decoding an encoded packet gives it back and consumes exactly its frame,
/// whatever follows it.
#[verifier::rlimit(40)]
pub proof fn lemma_frame_round_trip(p: PacketModel, rest: Seq<u8>)
    requires
        packet_wf(p),
    ensures
        parse_frame(enc_packet(p) + rest) == Ok::<FrameModel, DecodeError>(
            FrameModel::Packet(p, enc_packet(p).len()),
        ),
{
    let body = enc_message(p.message);
    let b = enc_packet(p) + rest;
    lemma_frame_fields(p.packet_type, p.route, p.context_id, body, rest);
    lemma_message_round_trip(p.message, Seq::empty());
    assert(body + Seq::<u8>::empty() =~= body);
    let total = (declared_size(b) + 4) as nat;
    assert(total == enc_packet(p).len());
    let route = (u16_of_be(b.subrange(5, 7)), u16_of_be(b.subrange(7, 9)));
    assert(route == p.route);
    assert(known_route(route));
    assert(b.subrange(13, total as int) == body);
    assert(parse_message(route, b.subrange(13, total as int)) == Ok::<
        (MessageModel, nat),
        DecodeError,
    >((p.message, body.len())));
    assert(packet_type_of_byte(b[4]) == p.packet_type);
}

/// A frame under a route outside the known set is consumed whole and not
/// surfaced as a packet.
pub proof fn lemma_unknown_route_skipped(
    t: PacketType,
    route: RouteWithVersion,
    context_id: u32,
    body: Seq<u8>,
    rest: Seq<u8>,
)
    requires
        !known_route(route),
        9 + body.len() <= i32::MAX,
    ensures
        parse_frame(enc_frame(t, route, context_id, body) + rest) == Ok::<FrameModel, DecodeError>(
            FrameModel::Skipped(13 + body.len()),
        ),
{
    lemma_frame_fields(t, route, context_id, body, rest);
}

/// A strict prefix of a frame is incomplete: nothing is consumed.
pub proof fn lemma_frame_prefix_incomplete(p: PacketModel, k: nat)
    requires
        packet_fits(p),
        k < enc_packet(p).len(),
    ensures
        parse_frame(enc_packet(p).subrange(0, k as int)) == Ok::<FrameModel, DecodeError>(
            FrameModel::Incomplete,
        ),
{
    let e = enc_packet(p);
    let body = enc_message(p.message);
    lemma_frame_fields(p.packet_type, p.route, p.context_id, body, Seq::empty());
    assert(e + Seq::<u8>::empty() =~= e);
    let pre = e.subrange(0, k as int);
    if k >= 4 {
        assert(u32_of_be(pre) == u32_of_be(e));
    }
}

/// Two frames back to back decode in order: the first step yields the first
/// packet and consumes its frame only; what is left is the second frame, which
/// yields the second packet when it is whole (leaving nothing) and is left
/// intact as incomplete when it is not.
pub proof fn lemma_two_frames(p1: PacketModel, p2: PacketModel, k: nat)
    requires
        packet_wf(p1),
        packet_wf(p2),
        k <= enc_packet(p2).len(),
    ensures
        ({
            let e1 = enc_packet(p1);
            let e2 = enc_packet(p2);
            let buf = e1 + e2.subrange(0, k as int);
            &&& parse_frame(buf) == Ok::<FrameModel, DecodeError>(FrameModel::Packet(p1, e1.len()))
            &&& buf.subrange(e1.len() as int, buf.len() as int) == e2.subrange(0, k as int)
            &&& k == e2.len() ==> parse_frame(e2.subrange(0, k as int)) == Ok::<
                FrameModel,
                DecodeError,
            >(FrameModel::Packet(p2, e2.len()))
            &&& k < e2.len() ==> parse_frame(e2.subrange(0, k as int)) == Ok::<
                FrameModel,
                DecodeError,
            >(FrameModel::Incomplete)
        }),
{
    let e1 = enc_packet(p1);
    let e2 = enc_packet(p2);
    let part = e2.subrange(0, k as int);
    let buf = e1 + part;
    lemma_frame_round_trip(p1, part);
    assert(buf.subrange(e1.len() as int, buf.len() as int) =~= part);
    if k == e2.len() {
        lemma_frame_round_trip(p2, Seq::empty());
        assert(e2 + Seq::<u8>::empty() =~= part);
    } else {
        lemma_frame_prefix_incomplete(p2, k);
    }
}

} // verus!
