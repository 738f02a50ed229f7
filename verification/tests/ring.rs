use farsight::controller::completer::Completer;
use farsight::xdp::ring::{
    mapping_len, Consumer, Descriptor, MmapOffsets, Producer, Ring, RingFlags, RingKind,
    RingOffset,
};
use std::sync::atomic::{AtomicU32, Ordering};

fn offsets() -> MmapOffsets {
    MmapOffsets {
        rx: RingOffset { producer: 1, consumer: 2, desc: 3, flags: 4 },
        tx: RingOffset { producer: 11, consumer: 12, desc: 13, flags: 14 },
        fr: RingOffset { producer: 21, consumer: 22, desc: 23, flags: 24 },
        cr: RingOffset { producer: 31, consumer: 32, desc: 33, flags: 34 },
    }
}

#[test]
fn offsets_by_kind() {
    let o = offsets();
    assert_eq!(o.get_offset(&RingKind::Rx).producer, 1);
    assert_eq!(o.get_offset(&RingKind::Tx).consumer, 12);
    assert_eq!(o.get_offset(&RingKind::Fill).desc, 23);
    assert_eq!(o.get_offset(&RingKind::Complete).flags, 34);
}

#[test]
fn page_offsets_and_option_names_by_kind() {
    assert_eq!(RingKind::Rx.get_page_offset(), 0);
    assert_eq!(RingKind::Tx.get_page_offset(), 0x8000_0000);
    assert_eq!(RingKind::Fill.get_page_offset(), 0x1_0000_0000);
    assert_eq!(RingKind::Complete.get_page_offset(), 0x1_8000_0000);
    assert_eq!(RingKind::Rx.get_opt_name(), 2);
    assert_eq!(RingKind::Tx.get_opt_name(), 3);
    assert_eq!(RingKind::Fill.get_opt_name(), 5);
    assert_eq!(RingKind::Complete.get_opt_name(), 6);
}

#[test]
fn mapping_ends_with_the_entry_array() {
    let o = RingOffset { producer: 0, consumer: 64, desc: 320, flags: 128 };
    assert_eq!(mapping_len(&o, 2048, 16), Some(320 + 2048 * 16));
    assert_eq!(mapping_len(&o, 0, 16), Some(320));
    assert_eq!(mapping_len(&o, u32::MAX, usize::MAX), None);
    let far = RingOffset { producer: 0, consumer: 0, desc: u64::MAX, flags: 0 };
    assert_eq!(mapping_len(&far, 1, 1), None);
}

#[test]
fn wakeup_flag_is_bit_zero() {
    assert!(RingFlags(1).needs_wakeup());
    assert!(RingFlags(3).needs_wakeup());
    assert!(!RingFlags(0).needs_wakeup());
    assert!(!RingFlags(2).needs_wakeup());
    let (prod, cons, flags) = (AtomicU32::new(0), AtomicU32::new(0), AtomicU32::new(1));
    let ring = Ring::new(RingKind::Tx, 4, &prod, &cons, &flags);
    assert!(ring.flags().needs_wakeup());
    flags.store(0, Ordering::Relaxed);
    assert!(!ring.flags().needs_wakeup());
}

#[test]
fn slots_wrap_at_the_size() {
    let (prod, cons, flags) = (AtomicU32::new(0), AtomicU32::new(0), AtomicU32::new(0));
    let ring = Ring::new(RingKind::Tx, 4, &prod, &cons, &flags);
    assert_eq!(ring.size(), 4);
    assert_eq!(ring.slot(0), 0);
    assert_eq!(ring.slot(3), 3);
    assert_eq!(ring.slot(4), 0);
    assert_eq!(ring.slot(5), 1);
    assert_eq!(ring.slot(u32::MAX), 3);
    let odd = Ring::new(RingKind::Tx, 6, &prod, &cons, &flags);
    assert_eq!(odd.slot(13), 1);
}

#[test]
fn a_fill_ring_starts_all_free() {
    let (prod, cons, flags) = (AtomicU32::new(77), AtomicU32::new(99), AtomicU32::new(0));
    let mut fill = Producer(Ring::new(RingKind::Fill, 8, &prod, &cons, &flags));
    assert_eq!(fill.free(8), 8);
    assert_eq!(fill.reserve(8), Some(0));
}

#[test]
fn a_tx_ring_starts_from_the_shared_counters() {
    let (prod, cons, flags) = (AtomicU32::new(10), AtomicU32::new(7), AtomicU32::new(0));
    let mut tx = Producer(Ring::new(RingKind::Tx, 8, &prod, &cons, &flags));
    assert_eq!(tx.free(1), 5);
    assert_eq!(tx.reserve(5), Some(10));
    assert_eq!(tx.reserve(1), None);
}

#[test]
fn an_rx_ring_starts_from_the_shared_counters() {
    let (prod, cons, flags) = (AtomicU32::new(10), AtomicU32::new(7), AtomicU32::new(0));
    let mut rx = Consumer(Ring::new(RingKind::Rx, 8, &prod, &cons, &flags));
    assert_eq!(rx.available(16), 3);
    assert_eq!(rx.available(2), 2);
    assert_eq!(rx.peek(2), Some(7));
    assert_eq!(rx.peek(2), Some(9));
    assert_eq!(rx.peek(2), None);
}

#[test]
fn a_completion_ring_starts_empty() {
    let (prod, cons, flags) = (AtomicU32::new(0), AtomicU32::new(0), AtomicU32::new(0));
    let mut cr = Consumer(Ring::new(RingKind::Complete, 8, &prod, &cons, &flags));
    assert_eq!(cr.available(1), 0);
    assert_eq!(cr.peek(1), None);
    prod.store(2, Ordering::Release);
    assert_eq!(cr.peek(1), Some(0));
    assert_eq!(cr.release(1), 0);
    assert_eq!(cons.load(Ordering::Acquire), 1);
}

#[test]
fn reserve_reads_the_consumer_only_when_out_of_room() {
    let (prod, cons, flags) = (AtomicU32::new(0), AtomicU32::new(0), AtomicU32::new(0));
    let mut tx = Producer(Ring::new(RingKind::Tx, 4, &prod, &cons, &flags));
    assert_eq!(tx.reserve(3), Some(0));
    cons.store(2, Ordering::Release);
    assert_eq!(tx.reserve(1), Some(3));
    assert_eq!(tx.free(0), 0);
    assert_eq!(tx.reserve(2), Some(4));
    assert_eq!(tx.reserve(1), None);
    assert_eq!(tx.submit(6), 0);
    assert_eq!(prod.load(Ordering::Acquire), 6);
}

#[test]
fn pure_steps_take_the_shared_counter_as_given() {
    let (prod, cons, flags) = (AtomicU32::new(0), AtomicU32::new(0), AtomicU32::new(0));
    let mut tx = Producer(Ring::from_words(RingKind::Tx, 4, 100, 98, &prod, &cons, &flags));
    assert_eq!(tx.free_with(1, 0), 2);
    assert_eq!(tx.reserve_with(2, 0), Some(100));
    assert_eq!(tx.reserve_with(1, 98), None);
    assert_eq!(tx.reserve_with(1, 99), Some(102));
    let mut rx = Consumer(Ring::from_words(RingKind::Rx, 4, 50, 50, &prod, &cons, &flags));
    assert_eq!(rx.available_with(4, 50), 0);
    assert_eq!(rx.peek_with(4, 53), Some(50));
    assert_eq!(rx.peek_with(4, 54), Some(53));
    assert_eq!(rx.peek_with(0, 60), None);
}

#[test]
fn counters_wrap_around() {
    let (prod, cons, flags) = (AtomicU32::new(0), AtomicU32::new(0), AtomicU32::new(0));
    let start = u32::MAX - 1;
    let mut tx = Producer(Ring::from_words(RingKind::Tx, 4, start, start, &prod, &cons, &flags));
    assert_eq!(tx.free_with(1, start), 4);
    assert_eq!(tx.reserve_with(4, start), Some(u32::MAX - 1));
    assert_eq!(tx.reserve_with(1, start), None);
    assert_eq!(tx.reserve_with(1, u32::MAX), Some(2));
    let mut rx = Consumer(Ring::from_words(RingKind::Rx, 4, start, start, &prod, &cons, &flags));
    assert_eq!(rx.peek_with(4, 1), Some(u32::MAX - 1));
    assert_eq!(rx.available_with(4, 2), 1);
}

#[test]
fn one_producer_one_consumer_deliver_in_order() {
    let size: u32 = 8;
    let (prod, cons, flags) = (AtomicU32::new(0), AtomicU32::new(0), AtomicU32::new(0));
    let mut producer = Producer(Ring::new(RingKind::Tx, size, &prod, &cons, &flags));
    let mut consumer = Consumer(Ring::new(RingKind::Rx, size, &prod, &cons, &flags));
    let mut entries = vec![Descriptor { addr: 0, len: 0, options: 0 }; size as usize];
    let mut sent: u64 = 0;
    let mut received: Vec<u64> = Vec::new();
    let total: u64 = 1000;
    let mut step: u32 = 0;
    while (received.len() as u64) < total {
        step = step.wrapping_mul(1_103_515_245).wrapping_add(12345);
        let burst = (step >> 16) % 5;
        for _ in 0..burst {
            if sent == total {
                break;
            }
            if let Some(index) = producer.reserve(1) {
                let slot = producer.0.slot(index) as usize;
                entries[slot] = Descriptor { addr: sent, len: 1, options: 0 };
                producer.submit(1);
                sent += 1;
            }
        }
        step = step.wrapping_mul(1_103_515_245).wrapping_add(12345);
        let burst = (step >> 16) % 5;
        for _ in 0..burst {
            if let Some(index) = consumer.peek(1) {
                let slot = consumer.0.slot(index) as usize;
                received.push(entries[slot].addr);
                consumer.release(1);
            }
        }
    }
    let expected: Vec<u64> = (0..total).collect();
    assert_eq!(received, expected);
    assert_eq!(consumer.peek(1), None);
}

#[test]
fn a_full_ring_takes_no_more() {
    let (prod, cons, flags) = (AtomicU32::new(0), AtomicU32::new(0), AtomicU32::new(0));
    let mut producer = Producer(Ring::new(RingKind::Tx, 2, &prod, &cons, &flags));
    assert!(producer.reserve(1).is_some());
    producer.submit(1);
    assert!(producer.reserve(1).is_some());
    producer.submit(1);
    assert!(producer.reserve(1).is_none());
    let mut consumer = Consumer(Ring::new(RingKind::Rx, 2, &prod, &cons, &flags));
    assert_eq!(consumer.peek(1), Some(0));
    consumer.release(1);
    assert_eq!(producer.reserve(1), Some(2));
}

#[test]
fn completer_takes_one_entry_per_tick() {
    let (prod, cons, flags) = (AtomicU32::new(0), AtomicU32::new(0), AtomicU32::new(0));
    let cr = Consumer(Ring::new(RingKind::Complete, 4, &prod, &cons, &flags));
    let mut completer = Completer::new(cr);
    assert!(!completer.tick());
    prod.store(3, Ordering::Release);
    assert!(completer.tick());
    assert!(completer.tick());
    assert!(completer.tick());
    assert!(!completer.tick());
    assert_eq!(cons.load(Ordering::Acquire), 3);
}
