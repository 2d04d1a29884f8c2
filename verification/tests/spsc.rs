use std::cell::RefCell;

use melin::disruptor::spsc::{channel, Consumer, Full, Ring};

/// Hands a full ring to its consumer, which takes all of it.
fn drain(
    consumer: &RefCell<Consumer>,
    received: &RefCell<Vec<u64>>,
    mut ring: Ring<u64>,
) -> Ring<u64> {
    while let Some((_, v)) = consumer.borrow_mut().try_consume(&mut ring) {
        received.borrow_mut().push(v);
    }
    ring
}

#[test]
fn basic_publish_consume() {
    let (mut producer, mut consumer, mut ring) = channel::<u64>(4);

    producer.try_publish(&mut ring, 10).unwrap();
    producer.try_publish(&mut ring, 20).unwrap();

    assert_eq!(consumer.try_consume(&mut ring), Some((0, 10)));
    assert_eq!(consumer.try_consume(&mut ring), Some((1, 20)));
    assert_eq!(consumer.try_consume(&mut ring), None);
}

#[test]
fn full_buffer() {
    let (mut producer, mut consumer, mut ring) = channel::<u64>(4);

    for i in 0..4 {
        assert!(producer.try_publish(&mut ring, i).is_ok());
    }
    assert_eq!(producer.try_publish(&mut ring, 99), Err(Full));

    consumer.try_consume(&mut ring);
    assert!(producer.try_publish(&mut ring, 99).is_ok());
}

#[test]
fn wrap_around() {
    let (mut producer, consumer, mut ring) = channel::<u64>(4);
    let consumer = RefCell::new(consumer);
    let received = RefCell::new(Vec::new());

    for i in 0..20u64 {
        (ring, _) = producer.publish(ring, i, |r| drain(&consumer, &received, r));
        let (seq, val) = consumer.borrow_mut().try_consume(&mut ring).unwrap();
        assert_eq!(seq, i);
        assert_eq!(val, i);
    }
    assert!(received.borrow().is_empty());
}

#[test]
fn batch_consume() {
    let (mut producer, consumer, mut ring) = channel::<u64>(16);
    let consumer = RefCell::new(consumer);
    let received = RefCell::new(Vec::new());

    for i in 0..8u64 {
        (ring, _) = producer.publish(ring, i * 10, |r| drain(&consumer, &received, r));
    }

    let mut buf = vec![0u64; 32];
    let count = consumer
        .borrow_mut()
        .consume_batch(&mut ring, &mut buf, 32);
    assert_eq!(count, 8);
    for (i, item) in buf.iter().enumerate().take(8) {
        assert_eq!(*item, i as u64 * 10);
    }
}

#[test]
fn publish_returns_correct_sequence() {
    let (mut producer, consumer, mut ring) = channel::<u64>(8);
    let consumer = RefCell::new(consumer);
    let received = RefCell::new(Vec::new());
    for (value, sequence) in [(1, 0), (2, 1), (3, 2)] {
        let seq;
        (ring, seq) = producer.publish(ring, value, |r| drain(&consumer, &received, r));
        assert_eq!(seq, sequence);
    }
}

/// Publishing to a full ring waits for the consumer and loses nothing.
#[test]
fn publish_waits_for_room() {
    let (mut producer, consumer, mut ring) = channel::<u64>(2);
    let consumer = RefCell::new(consumer);
    let received = RefCell::new(Vec::new());
    for i in 0..5u64 {
        let seq;
        (ring, seq) = producer.publish(ring, i, |r| drain(&consumer, &received, r));
        assert_eq!(seq, i);
    }
    assert_eq!(*received.borrow(), [0, 1, 2, 3]);
    assert_eq!(consumer.borrow_mut().try_consume(&mut ring), Some((4, 4)));
}

#[test]
fn try_publish_batch_writes_all_when_capacity_available() {
    let (mut producer, mut consumer, mut ring) = channel::<u64>(16);
    let values = [10, 20, 30, 40, 50];
    let n = producer.try_publish_batch(&mut ring, &values);
    assert_eq!(n, 5);
    let mut buf = vec![0u64; 5];
    let read = consumer.consume_batch(&mut ring, &mut buf, 5);
    assert_eq!(read, 5);
    assert_eq!(buf, values);
}

#[test]
fn try_publish_batch_caps_at_available_capacity() {
    let (mut producer, _consumer, mut ring) = channel::<u64>(8);
    for i in 0..6 {
        producer.try_publish(&mut ring, i).unwrap();
    }
    let n = producer.try_publish_batch(&mut ring, &[100, 101, 102, 103, 104]);
    assert_eq!(n, 2);
}

#[test]
fn try_publish_batch_returns_zero_when_full() {
    let (mut producer, _consumer, mut ring) = channel::<u64>(4);
    for i in 0..4 {
        producer.try_publish(&mut ring, i).unwrap();
    }
    assert_eq!(producer.try_publish_batch(&mut ring, &[99, 100]), 0);
}

#[test]
fn try_publish_batch_empty_input_returns_zero() {
    let (mut producer, _consumer, mut ring) = channel::<u64>(8);
    let empty: [u64; 0] = [];
    assert_eq!(producer.try_publish_batch(&mut ring, &empty), 0);
}

/// A batch larger than the ring arrives whole and in order while the other
/// side drains.
#[test]
fn publish_batch_blocking_handles_capacity_pressure() {
    let (mut producer, consumer, ring) = channel::<u64>(8);
    let values: Vec<u64> = (0..20).collect();
    let consumer = RefCell::new(consumer);
    let received = RefCell::new(Vec::with_capacity(20));
    let ring = producer.publish_batch_blocking(ring, &values, |r| drain(&consumer, &received, r));
    drain(&consumer, &received, ring);
    assert_eq!(received.into_inner(), values);
}

/// A consumer that takes one item at a time is enough.
#[test]
fn blocking_batch_behind_a_slow_consumer() {
    let (mut producer, consumer, mut ring) = channel::<u64>(4);
    let consumer = RefCell::new(consumer);
    let received = RefCell::new(Vec::new());
    let take_one = |mut r: Ring<u64>| {
        let (_, v) = consumer.borrow_mut().try_consume(&mut r).unwrap();
        received.borrow_mut().push(v);
        r
    };
    producer.try_publish(&mut ring, 100).unwrap();
    let ring = producer.publish_batch_blocking(ring, &[1, 2, 3, 4, 5, 6], take_one);
    assert_eq!(*received.borrow(), [100, 1, 2]);
    drain(&consumer, &received, ring);
    assert_eq!(*received.borrow(), [100, 1, 2, 3, 4, 5, 6]);
}

/// Values cross in order however publishing and consuming interleave.
#[test]
fn interleaved_values_stay_in_order() {
    let (mut producer, mut consumer, mut ring) = channel::<u64>(1024);
    let count = 100_000u64;
    let mut received = Vec::with_capacity(count as usize);
    let mut next = 0;
    while received.len() < count as usize {
        for _ in 0..700 {
            if next < count && producer.try_publish(&mut ring, next).is_ok() {
                next += 1;
            }
        }
        for _ in 0..300 {
            if let Some((seq, val)) = consumer.try_consume(&mut ring) {
                assert_eq!(seq, val);
                received.push(val);
            }
        }
    }
    for (i, val) in received.iter().enumerate() {
        assert_eq!(*val, i as u64);
    }
}

#[test]
fn blocking_batch_with_room_does_not_wait() {
    let (mut producer, mut consumer, ring) = channel::<u64>(8);
    let mut ring = producer.publish_batch_blocking(ring, &[7, 8, 9], |_| panic!("waited"));
    assert_eq!(consumer.try_consume(&mut ring), Some((0, 7)));
    assert_eq!(consumer.try_consume(&mut ring), Some((1, 8)));
    assert_eq!(consumer.try_consume(&mut ring), Some((2, 9)));
}
