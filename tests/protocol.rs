use packline::broker::{
    consume_packet, handle_packet, open_subscription, poll_subscription, BrokerAction,
};
use packline::channel::ConsumePoll;
use packline::codec::{encode_i32, encode_u16, encode_u32, encode_u8, DecodeError};
use packline::demux::{Delivery, Demux};
use packline::messages::{
    ConnectRequestV1, Message, ProduceV1, ProduceV1Response, SubscribeTopicRequestV1,
};
use packline::packet::{EncodeError, FlowCodec, Frame, Packet, PacketType};
use packline::registry::{App, ChannelConfig};

fn produce_packet(context_id: u32, topic: &str, records: Vec<u32>) -> Packet {
    Packet::new_with_context_id(
        context_id,
        (4, 1),
        Message::ProduceV1(ProduceV1 { topic: topic.to_string(), records }),
    )
}

fn encode(packet: &Packet) -> Vec<u8> {
    let mut out: Vec<u8> = Vec::new();
    FlowCodec::new().encode(packet, &mut out).unwrap();
    out
}

fn app_with_topic(name: &str) -> App {
    let mut app = App::new();
    let _ = app.create_channel(ChannelConfig { name: name.to_string(), partitions: 1 });
    app
}

/// Polls a subscription with its timeout elapsed until it yields a batch.
fn next_batch(app: &mut App, topic: &str, future: &mut packline::channel::ConsumerFuture) -> Option<Vec<u32>> {
    for _ in 0..1000 {
        match poll_subscription(app, &topic.to_string(), future, true) {
            Some(ConsumePoll::Ready(batch)) => return Some(batch),
            Some(ConsumePoll::Pending) => {},
            None => return None,
        }
    }
    None
}

#[test]
fn packet_frame_layout() {
    let p = produce_packet(0x01020304, "t", vec![7]);
    let bytes = encode(&p);
    let mut expected: Vec<u8> = vec![0, 0, 0, 30, 0, 0, 4, 0, 1, 1, 2, 3, 4];
    expected.extend_from_slice(&[0, 0, 0, 0, 0, 0, 0, 1, b't']);
    expected.extend_from_slice(&[0, 0, 0, 0, 0, 0, 0, 1, 0, 0, 0, 7]);
    assert_eq!(bytes, expected);
    assert_eq!(p.size() + 4, bytes.len());
}

#[test]
fn two_frames_decode_in_order_and_partial_frame_is_left() {
    let p1 = produce_packet(1, "alpha", vec![1, 2, 3]);
    let p2 = Packet::new_stream_packet(
        2,
        (2, 1),
        Message::SubscribeTopicRequestV1(SubscribeTopicRequestV1 {
            topic: "beta".to_string(),
            consumer_group_id: "g".to_string(),
        }),
    );
    let e1 = encode(&p1);
    let e2 = encode(&p2);
    let mut both = e1.clone();
    both.extend_from_slice(&e2);

    let mut codec = FlowCodec::new();
    let first = match codec.decode(&both) {
        Ok(Frame::Packet(p, n)) => {
            assert_eq!(n, e1.len());
            p
        },
        _ => panic!("first frame"),
    };
    assert_eq!(first.context_id, 1);
    assert_eq!(first.packet_type, PacketType::Request);
    match first.message {
        Message::ProduceV1(m) => {
            assert_eq!(m.topic, "alpha");
            assert_eq!(m.records, vec![1, 2, 3]);
        },
        _ => panic!("produce expected"),
    }
    match codec.decode(&both[e1.len()..]) {
        Ok(Frame::Packet(p, n)) => {
            assert_eq!(n, e2.len());
            assert_eq!(e1.len() + n, both.len());
            assert_eq!(p.packet_type, PacketType::Stream);
            assert_eq!(p.route(), (2, 1));
            match p.message {
                Message::SubscribeTopicRequestV1(m) => {
                    assert_eq!(m.topic, "beta");
                    assert_eq!(m.consumer_group_id, "g");
                },
                _ => panic!("subscribe expected"),
            }
        },
        _ => panic!("second frame"),
    }

    let partial = &both[..e1.len() + e2.len() - 1];
    assert!(matches!(codec.decode(partial), Ok(Frame::Packet(_, n)) if n == e1.len()));
    assert!(matches!(codec.decode(&partial[e1.len()..]), Ok(Frame::Incomplete)));
    assert!(matches!(codec.decode(&both[..3]), Ok(Frame::Incomplete)));
    assert!(matches!(codec.decode(&[]), Ok(Frame::Incomplete)));
}

#[test]
fn unknown_route_is_consumed_not_surfaced() {
    let mut frame: Vec<u8> = Vec::new();
    encode_i32(9 + 3, &mut frame);
    encode_u8(0, &mut frame);
    encode_u16(9, &mut frame);
    encode_u16(1, &mut frame);
    encode_u32(77, &mut frame);
    frame.extend_from_slice(&[1, 2, 3]);
    let total = frame.len();
    frame.extend_from_slice(&encode(&produce_packet(5, "t", vec![])));
    assert!(matches!(FlowCodec::new().decode(&frame), Ok(Frame::Skipped(n)) if n == total));
    assert!(matches!(FlowCodec::new().decode(&frame[total..]), Ok(Frame::Packet(_, _))));
}

#[test]
fn malformed_frames_are_errors() {
    let mut small: Vec<u8> = Vec::new();
    encode_i32(3, &mut small);
    small.extend_from_slice(&[0, 0, 0]);
    assert!(matches!(FlowCodec::new().decode(&small), Err(DecodeError::BadFrameSize)));

    let mut negative: Vec<u8> = Vec::new();
    encode_i32(-1, &mut negative);
    assert!(matches!(FlowCodec::new().decode(&negative), Err(DecodeError::BadFrameSize)));

    let mut bad_type = encode(&produce_packet(1, "t", vec![1]));
    bad_type[4] = 2;
    assert!(matches!(FlowCodec::new().decode(&bad_type), Err(DecodeError::UnknownPacketType)));

    let mut short_body: Vec<u8> = Vec::new();
    encode_i32(9 + 4, &mut short_body);
    encode_u8(0, &mut short_body);
    encode_u16(4, &mut short_body);
    encode_u16(1, &mut short_body);
    encode_u32(1, &mut short_body);
    short_body.extend_from_slice(&[0, 0, 0, 0]);
    assert!(matches!(FlowCodec::new().decode(&short_body), Err(DecodeError::Truncated)));
}

#[test]
fn connect_packet_is_header_only() {
    let p = Packet::new((1, 1), Message::ConnectRequestV1(ConnectRequestV1 {}));
    assert_eq!(p.packet_type, PacketType::Request);
    let mut out: Vec<u8> = Vec::new();
    assert_eq!(FlowCodec::new().encode(&p, &mut out), Ok::<(), EncodeError>(()));
    assert_eq!(out.len(), 13);
    assert_eq!(&out[..4], &[0, 0, 0, 9]);
}

#[test]
fn response_keeps_type_and_context() {
    let p = Packet::new_stream_packet(42, (2, 1), Message::Invalid);
    let r = p.response((5, 1), Message::ProduceV1Response(ProduceV1Response {}));
    assert_eq!(r.context_id, 42);
    assert_eq!(r.packet_type, PacketType::Stream);
    assert_eq!(r.route(), (5, 1));
}

#[test]
fn produce_then_consume_one_record() {
    let mut app = app_with_topic("t");
    let mut future = open_subscription(&mut app, &"t".to_string()).unwrap();
    match handle_packet(&mut app, produce_packet(3, "t", vec![7])) {
        BrokerAction::Produced { reply, woken } => {
            assert_eq!(reply.context_id, 3);
            assert_eq!(reply.route(), (5, 1));
            assert_eq!(reply.packet_type, PacketType::Request);
            assert!(matches!(reply.message, Message::ProduceV1Response(_)));
            assert_eq!(woken, vec![future.handle().unwrap()]);
        },
        _ => panic!("produce expected"),
    }
    assert_eq!(next_batch(&mut app, "t", &mut future), Some(vec![7]));
}

#[test]
fn second_consume_waits_for_new_records() {
    let mut app = app_with_topic("t");
    let _ = handle_packet(&mut app, produce_packet(1, "t", vec![1, 2, 3, 4]));
    let mut future = open_subscription(&mut app, &"t".to_string()).unwrap();
    assert_eq!(next_batch(&mut app, "t", &mut future), Some(vec![1, 2, 3, 4]));
    let topic = "t".to_string();
    // The timeout passes with nothing new: the consume stays pending.
    assert!(matches!(poll_subscription(&mut app, &topic, &mut future, true), Some(ConsumePoll::Pending)));
    assert!(matches!(poll_subscription(&mut app, &topic, &mut future, true), Some(ConsumePoll::Pending)));
    let _ = handle_packet(&mut app, produce_packet(2, "t", vec![5, 6]));
    assert_eq!(next_batch(&mut app, "t", &mut future), Some(vec![5, 6]));
}

#[test]
fn two_groups_see_the_same_history() {
    let mut app = app_with_topic("t");
    let i = app.channel_index(&"t".to_string(), 1).unwrap();
    let c0 = app.channel_mut(i).consumer(0);
    let _ = handle_packet(&mut app, produce_packet(1, "t", vec![1, 2, 3, 4]));
    let channel = app.channel_mut(i);
    let mut f0 = c0.consume(channel);
    assert!(matches!(f0.poll(channel, true), ConsumePoll::Ready(b) if b == vec![1, 2, 3, 4]));
    let _ = handle_packet(&mut app, produce_packet(2, "t", vec![5, 6]));
    let channel = app.channel_mut(i);
    assert!(matches!(f0.poll(channel, true), ConsumePoll::Ready(b) if b == vec![5, 6]));
    let c1 = channel.consumer(1);
    let mut f1 = c1.consume(channel);
    assert!(matches!(f1.poll(channel, true), ConsumePoll::Ready(b) if b == vec![1, 2, 3, 4, 5, 6]));
}

#[test]
fn mixed_width_struct_bytes() {
    let mut out: Vec<u8> = Vec::new();
    packline::codec::encode_i8(42, &mut out);
    packline::codec::encode_i16(42, &mut out);
    packline::codec::encode_i32(42, &mut out);
    assert_eq!(out, vec![42, 0, 42, 0, 0, 0, 42]);
}

#[test]
fn connect_is_answered_under_its_context_id() {
    let mut app = App::new();
    let request = Packet::new_with_context_id(0xC0FFEE, (1, 1), Message::ConnectRequestV1(ConnectRequestV1 {}));
    match handle_packet(&mut app, request) {
        BrokerAction::Reply(p) => {
            assert_eq!(p.context_id, 0xC0FFEE);
            assert_eq!(p.route(), (1, 1));
        },
        _ => panic!("reply expected"),
    }
}

#[test]
fn subscribe_to_missing_topic_ends_at_once() {
    let mut app = app_with_topic("t");
    let subscribe = Packet::new_with_context_id(
        8,
        (2, 1),
        Message::SubscribeTopicRequestV1(SubscribeTopicRequestV1 {
            topic: "missing".to_string(),
            consumer_group_id: "".to_string(),
        }),
    );
    let topic = match handle_packet(&mut app, subscribe) {
        BrokerAction::Subscribe { context_id, topic, consumer_group_id } => {
            assert_eq!(context_id, 8);
            assert_eq!(consumer_group_id, "");
            topic
        },
        _ => panic!("subscribe expected"),
    };
    assert!(open_subscription(&mut app, &topic).is_none());
    // The connection stays usable.
    match handle_packet(&mut app, produce_packet(9, "t", vec![1])) {
        BrokerAction::Produced { reply, .. } => assert_eq!(reply.context_id, 9),
        _ => panic!("produce expected"),
    }
    match handle_packet(&mut app, produce_packet(10, "missing", vec![1])) {
        BrokerAction::Produced { reply, woken } => {
            assert_eq!(reply.context_id, 10);
            assert!(woken.is_empty());
        },
        _ => panic!("produce expected"),
    }
    let mut future = open_subscription(&mut app, &"t".to_string()).unwrap();
    assert_eq!(next_batch(&mut app, "t", &mut future), Some(vec![1]));
}

#[test]
fn stream_fan_out_keeps_order() {
    let mut app = app_with_topic("t");
    let mut future = open_subscription(&mut app, &"t".to_string()).unwrap();
    let inputs: Vec<Vec<u32>> = vec![vec![1, 2], vec![3], vec![4, 5, 6], vec![7]];
    let mut received: Vec<u32> = Vec::new();
    let mut messages: Vec<Packet> = Vec::new();
    for (k, records) in inputs.iter().enumerate() {
        let _ = handle_packet(&mut app, produce_packet(k as u32, "t", records.clone()));
        let batch = next_batch(&mut app, "t", &mut future).unwrap();
        messages.push(consume_packet(99, "t".to_string(), batch));
    }
    assert_eq!(messages.len(), inputs.len());
    for m in messages {
        assert_eq!(m.context_id, 99);
        assert_eq!(m.packet_type, PacketType::Stream);
        assert_eq!(m.route(), (3, 1));
        match m.message {
            Message::ConsumeV1(c) => received.extend_from_slice(&c.records),
            _ => panic!("consume expected"),
        }
    }
    assert_eq!(received, inputs.concat());
}

#[test]
fn responses_reach_their_own_requests_in_any_order() {
    let mut demux = Demux::new();
    for id in [11u32, 22, 33] {
        assert!(demux.register_request(id));
    }
    assert!(!demux.register_request(22));
    assert_eq!(demux.route(PacketType::Request, 33), Delivery::Response(33));
    assert_eq!(demux.route(PacketType::Request, 11), Delivery::Response(11));
    assert_eq!(demux.route(PacketType::Request, 11), Delivery::Drop);
    assert_eq!(demux.route(PacketType::Request, 44), Delivery::Drop);
    assert_eq!(demux.route(PacketType::Request, 22), Delivery::Response(22));
}

#[test]
fn stream_packets_go_to_open_streams_until_closed() {
    let mut demux = Demux::new();
    assert!(demux.register_stream(5));
    assert!(!demux.register_stream(5));
    assert_eq!(demux.route(PacketType::Stream, 5), Delivery::Stream(5));
    assert_eq!(demux.route(PacketType::Stream, 5), Delivery::Stream(5));
    assert_eq!(demux.route(PacketType::Stream, 6), Delivery::Drop);
    assert_eq!(demux.route(PacketType::Request, 5), Delivery::Drop);
    demux.close_stream(5);
    assert_eq!(demux.route(PacketType::Stream, 5), Delivery::Drop);
    assert!(demux.register_request(7));
    demux.cancel_request(7);
    assert_eq!(demux.route(PacketType::Request, 7), Delivery::Drop);
}

#[test]
fn short_frame_not_yet_arrived_is_incomplete() {
    let partial = [0u8, 0, 0, 5, 0, 0];
    assert!(matches!(FlowCodec::new().decode(&partial), Ok(Frame::Incomplete)));
    let whole = [0u8, 0, 0, 5, 0, 0, 0, 0, 0];
    assert!(matches!(FlowCodec::new().decode(&whole), Err(DecodeError::BadFrameSize)));
}
