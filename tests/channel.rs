use packline::channel::{
    BaseConsumerStrategy, Channel, ConsumePoll, Consumer, ConsumerFuture, ConsumerGroupHandler,
    BATCH_MAX, DEFAULT_TIMEOUT_MS,
};
use packline::queue::{Queue, WaitList};
use packline::registry::{App, ChannelConfig};
use packline::sleep::MockSleep;
use packline::storage::VecStorage;
use packline::waker::ConsumerWaker;

/// Drives a consume whose timeout has already passed until it yields.
fn consume_now(consumer: &Consumer, channel: &mut Channel) -> Vec<u32> {
    let mut future = consumer.consume(channel);
    for _ in 0..1000 {
        if let ConsumePoll::Ready(batch) = future.poll(channel, true) {
            future.cancel(channel);
            return batch;
        }
    }
    panic!("consume never yielded")
}

fn poll_is_pending(future: &mut ConsumerFuture, channel: &mut Channel, elapsed: bool) -> bool {
    matches!(future.poll(channel, elapsed), ConsumePoll::Pending)
}

#[test]
fn test_consumer_future_ready_only_on_available_data() {
    let topic = "testing_topic".to_string();

    let mut app = App::new();
    let result = app.create_channel(ChannelConfig { name: topic.clone(), partitions: 1 });
    assert!(result.is_ok());

    let index = app.channel_index(&topic, 1).unwrap();
    let channel = app.channel_mut(index);

    channel.consumer_group_handler(0);
    let handle = channel.add_waiter(0);

    let mut mock_sleep = MockSleep::new(1000);
    let mut future = ConsumerFuture::new(0, handle);

    let mut producer = channel.producer();

    assert!(poll_is_pending(&mut future, channel, mock_sleep.is_elapsed()));
    producer.produce(channel, &mut vec![0u32]);

    assert!(poll_is_pending(&mut future, channel, mock_sleep.is_elapsed()));
    mock_sleep.force_complete();

    producer.produce(channel, &mut vec![1u32]);

    match future.poll(channel, mock_sleep.is_elapsed()) {
        ConsumePoll::Ready(batch) => assert_eq!(batch, vec![0u32, 1u32]),
        ConsumePoll::Pending => panic!("expected a batch"),
    }
}

#[test]
fn test_channel_produce_and_consume() {
    const CONSUMER_ID1: u128 = 0;
    const CONSUMER_ID2: u128 = 1;

    let mut channel = Channel::new();

    let mut producer = channel.producer();
    let consumer1 = channel.consumer(CONSUMER_ID1);
    let consumer2 = channel.consumer(CONSUMER_ID2);

    producer.produce(&mut channel, &mut vec![1, 2, 3, 4]);
    assert_eq!(consume_now(&consumer1, &mut channel), vec![1, 2, 3, 4]);

    producer.produce(&mut channel, &mut vec![5, 6]);
    assert_eq!(consume_now(&consumer1, &mut channel), vec![5, 6]);
    assert_eq!(consume_now(&consumer2, &mut channel), vec![1, 2, 3, 4, 5, 6]);
}

#[test]
fn test_vec_storage() {
    let topic_name: String = "test_topic".to_string();

    let mut app = App::new();
    let result = app.create_channel(ChannelConfig { name: topic_name.clone(), partitions: 1 });
    assert!(result.is_ok());

    let channel = app.get_channel(&(topic_name, 1));
    assert!(channel.is_some());

    let mut storage = VecStorage::new();

    assert_eq!(storage.peek(0, 1), Vec::<u32>::new());

    storage.enqueue(&mut vec![0u32]);
    assert_eq!(storage.peek(0, 1), vec![0u32]);

    storage.remove(1);
    assert_eq!(storage.peek(0, 1), Vec::<u32>::new());
}

#[test]
fn test_create_channel() {
    let mut app = App::new();
    let config = ChannelConfig { partitions: 3, name: "testing_channel".to_string() };

    let result = app.create_channel(config);

    assert!(result.is_ok());
    assert_eq!(3, result.unwrap().channels.len());
}

#[test]
fn test_get_channel_return_some() {
    let name = "testing_channel".to_string();

    let mut app = App::new();
    let config = ChannelConfig { partitions: 3, name: name.clone() };

    let _ = app.create_channel(config);
    let channel = app.get_channel(&(name, 1));

    assert!(channel.is_some());
}

#[test]
fn test_operations() {
    let mut queue: Queue<i32> = Queue::new();

    assert_eq!(queue.pop(), None);
    assert_eq!(queue.len(), 0);

    queue.push(3);
    queue.push(3);
    queue.push(0);
    queue.push(1);

    assert_eq!(queue.len(), 4);
    assert_eq!(queue.pop(), Some(3));
    assert_eq!(queue.pop(), Some(3));
    assert_eq!(queue.pop(), Some(0));

    queue.push(42);

    assert_eq!(queue.pop(), Some(1));
    assert_eq!(queue.pop(), Some(42));
    assert_eq!(queue.pop(), None);
    assert_eq!(queue.len(), 0);

    queue.push(1);
    queue.push(2);
    queue.push(3);

    assert_eq!(queue.len(), 3);
    assert_eq!(queue.pop(), Some(1));
    assert_eq!(queue.pop(), Some(2));
    assert_eq!(queue.pop(), Some(3));
    assert_eq!(queue.pop(), None);
    assert_eq!(queue.len(), 0);
}

#[test]
fn storage_peek_truncates_and_past_end_is_empty() {
    let mut storage = VecStorage::new();
    storage.enqueue(&mut vec![1, 2, 3]);
    assert_eq!(storage.peek(1, 10), vec![2, 3]);
    assert_eq!(storage.peek(3, 1), Vec::<u32>::new());
    assert_eq!(storage.peek(7, 1), Vec::<u32>::new());
    assert_eq!(storage.len(), 3);
}

#[test]
fn group_handler_reads_and_advances() {
    let strategy = BaseConsumerStrategy::new();
    let mut storage = VecStorage::new();
    let mut handler = ConsumerGroupHandler::new(9);
    assert_eq!(handler.consume(&strategy, &storage, 5), None);
    storage.enqueue(&mut vec![10, 11, 12]);
    assert_eq!(handler.consume(&strategy, &storage, 2), Some(vec![10, 11]));
    assert_eq!(handler.offset(), 2);
    assert_eq!(handler.consume(&strategy, &storage, 2), Some(vec![12]));
    assert_eq!(handler.consume(&strategy, &storage, 2), None);
    assert_eq!(handler.offset(), 3);
    assert_eq!(handler.group_id(), 9);
}

#[test]
fn offsets_only_move_forward_and_never_repeat() {
    let mut channel = Channel::new();
    channel.consumer(0);
    let mut seen: Vec<u32> = Vec::new();
    let mut produced: Vec<u32> = Vec::new();
    for round in 0..5u32 {
        let mut batch: Vec<u32> = (round * 10..round * 10 + round + 1).collect();
        produced.extend_from_slice(&batch);
        channel.produce(&mut batch);
        assert!(batch.is_empty());
        if let Some(got) = channel.consume_group(0, 2) {
            seen.extend_from_slice(&got);
        }
        assert_eq!(seen, produced[..seen.len()].to_vec());
    }
    while let Some(got) = channel.consume_group(0, 2) {
        seen.extend_from_slice(&got);
    }
    assert_eq!(seen, produced);
}

#[test]
fn groups_read_independently() {
    let mut channel = Channel::new();
    let consumer0 = channel.consumer(0);
    let mut producer = channel.producer();
    producer.produce(&mut channel, &mut vec![1, 2, 3, 4]);
    assert_eq!(consume_now(&consumer0, &mut channel), vec![1, 2, 3, 4]);
    producer.produce(&mut channel, &mut vec![5, 6]);
    assert_eq!(consume_now(&consumer0, &mut channel), vec![5, 6]);
    let consumer1 = channel.consumer(1);
    assert_eq!(consume_now(&consumer1, &mut channel), vec![1, 2, 3, 4, 5, 6]);
    assert_eq!(consumer1.timeout, DEFAULT_TIMEOUT_MS);
}

#[test]
fn produce_wakes_one_waiter_per_group_round_robin() {
    let mut channel = Channel::new();
    let c0 = channel.consumer(0);
    let c1 = channel.consumer(1);
    let f0a = c0.consume(&mut channel);
    let f0b = c0.consume(&mut channel);
    let f1 = c1.consume(&mut channel);
    let (a, b, c) = (f0a.handle().unwrap(), f0b.handle().unwrap(), f1.handle().unwrap());
    assert_eq!(channel.produce(&mut vec![1]), vec![a, c]);
    assert_eq!(channel.produce(&mut vec![2]), vec![b, c]);
    f0b.cancel(&mut channel);
    assert_eq!(channel.produce(&mut vec![3]), vec![a, c]);
    assert_eq!(channel.produce(&mut vec![4]), vec![a, c]);
}

#[test]
fn consume_waits_for_first_record_then_flushes_at_timeout() {
    let mut channel = Channel::new();
    let consumer = channel.consumer(0);
    let mut future = consumer.consume(&mut channel);
    assert!(poll_is_pending(&mut future, &mut channel, false));
    assert!(poll_is_pending(&mut future, &mut channel, true));
    let woken = channel.produce(&mut vec![7]);
    assert_eq!(woken, vec![future.handle().unwrap()]);
    assert!(poll_is_pending(&mut future, &mut channel, false));
    match future.poll(&mut channel, true) {
        ConsumePoll::Ready(batch) => assert_eq!(batch, vec![7]),
        ConsumePoll::Pending => panic!("expected the buffered record"),
    }
}

#[test]
fn one_poll_reads_at_most_a_batch() {
    let mut channel = Channel::new();
    let consumer = channel.consumer(0);
    let mut records: Vec<u32> = (0..120).collect();
    channel.produce(&mut records);
    let mut future = consumer.consume(&mut channel);
    match future.poll(&mut channel, true) {
        ConsumePoll::Ready(batch) => assert_eq!(batch, (0..BATCH_MAX as u32).collect::<Vec<u32>>()),
        ConsumePoll::Pending => panic!("expected a batch"),
    }
}

#[test]
fn waker_rotates_and_forgets_removed_handles() {
    let mut waker = ConsumerWaker::new();
    assert_eq!(waker.wake(), None);
    let a = waker.handle();
    let b = waker.handle();
    assert_ne!(a, b);
    assert_eq!(waker.wake(), Some(a));
    assert_eq!(waker.wake(), Some(b));
    assert_eq!(waker.wake(), Some(a));
    waker.remove(a);
    assert_eq!(waker.len(), 1);
    assert_eq!(waker.wake(), Some(b));
    assert_eq!(waker.wake(), Some(b));
}

#[test]
fn mock_sleep_elapses_at_its_duration() {
    let mut sleep = MockSleep::new(1000);
    assert!(!sleep.is_elapsed());
    sleep.set_elapsed(999);
    assert!(!sleep.is_elapsed());
    sleep.set_elapsed(1000);
    assert!(sleep.is_elapsed());
    sleep.set_elapsed(0);
    sleep.force_complete();
    assert!(sleep.is_elapsed());
}

#[test]
fn recreating_a_topic_replaces_its_partitions_only() {
    let mut app = App::new();
    let _ = app.create_channel(ChannelConfig { name: "a".to_string(), partitions: 2 });
    let _ = app.create_channel(ChannelConfig { name: "b".to_string(), partitions: 1 });
    let i = app.channel_index(&"b".to_string(), 1).unwrap();
    app.channel_mut(i).produce(&mut vec![1, 2]);
    let _ = app.create_channel(ChannelConfig { name: "a".to_string(), partitions: 2 });
    assert_eq!(app.get_channel(&("b".to_string(), 1)).unwrap().len(), 2);
    assert!(app.get_channel(&("a".to_string(), 2)).is_some());
    assert!(app.get_channel(&("a".to_string(), 3)).is_none());
    assert!(app.get_channel(&("a".to_string(), 0)).is_none());
}

#[test]
fn wait_list_notifies_in_arrival_order() {
    let mut list = WaitList::new();
    assert_eq!(list.notify_one(), None);
    list.wait(4);
    list.wait(2);
    list.wait(9);
    assert_eq!(list.notify_one(), Some(4));
    assert_eq!(list.notify_all(), vec![2, 9]);
    assert_eq!(list.notify_all(), Vec::<u64>::new());
}
