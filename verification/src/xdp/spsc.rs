//! A ring with both of its ends in view: the entry array, the two shared
//! counters, and the cached counters of the producer and of the consumer.
//! What one end hands over reaches the other in order, each entry once.

use crate::xdp::ring::{free_of, initial_cursor, peek_spec, ready_of, reserve_spec, Cursor, RingKind};
use vstd::arithmetic::div_mod::{
    lemma_fundamental_div_mod, lemma_mod_mod, lemma_small_mod, lemma_sub_mod_noop,
};
use vstd::prelude::*;

verus! {

/// A ring and both of its ends.
pub struct Spsc<T> {
    /// The number of entries: a power of two.
    pub size: u32,
    /// The shared producer counter.
    pub prod: u32,
    /// The shared consumer counter.
    pub cons: u32,
    /// The entry array.
    pub slots: Seq<T>,
    /// The producer's cached counters.
    pub producer: Cursor,
    /// The consumer's cached counters.
    pub consumer: Cursor,
}

/// The number of entries handed over and not yet handed back.
pub open spec fn filled<T>(r: Spsc<T>) -> u32 {
    r.prod.wrapping_sub(r.cons)
}

/// The entries handed over and not yet handed back, oldest first.
pub open spec fn queue<T>(r: Spsc<T>) -> Seq<T> {
    Seq::new(filled(r) as nat, |k: int| r.slots[(r.cons.wrapping_add(k as u32) % r.size) as int])
}

/// The ring between two operations: its size divides 2^32, so that indices
/// may wrap; it holds no more than its size; neither end has entries
/// reserved or taken that it has not handed on; and neither end's cached
/// counters promise more than the shared ones grant.
pub open spec fn inv<T>(r: Spsc<T>) -> bool {
    &&& r.size > 0
    &&& 0x1_0000_0000int % (r.size as int) == 0
    &&& r.slots.len() == r.size
    &&& filled(r) <= r.size
    &&& r.producer.cached_prod == r.prod
    &&& free_of(r.producer) <= r.size - filled(r)
    &&& r.consumer.cached_cons == r.cons
    &&& ready_of(r.consumer) <= filled(r)
}

/// A new ring over the given entry array, both counters at zero.
pub open spec fn fresh<T>(size: u32, slots: Seq<T>) -> Spsc<T> {
    Spsc {
        size,
        prod: 0,
        cons: 0,
        slots,
        producer: initial_cursor(RingKind::Tx, size, 0, 0),
        consumer: initial_cursor(RingKind::Rx, size, 0, 0),
    }
}

/// The producer reserves one entry, writes `item` to its slot and submits
/// it. Without room the ring keeps its entries.
pub open spec fn produce<T>(r: Spsc<T>, item: T) -> (Spsc<T>, bool) {
    let (producer, index) = reserve_spec(r.producer, r.size, 1, r.cons);
    match index {
        None => (Spsc { producer, ..r }, false),
        Some(i) => (
            Spsc {
                producer,
                slots: r.slots.update((i % r.size) as int, item),
                prod: r.prod.wrapping_add(1),
                ..r
            },
            true,
        ),
    }
}

/// The consumer takes one entry, reads its slot and releases it.
pub open spec fn consume<T>(r: Spsc<T>) -> (Spsc<T>, Option<T>) {
    let (consumer, index) = peek_spec(r.consumer, 1, r.prod);
    match index {
        None => (Spsc { consumer, ..r }, None),
        Some(i) => (
            Spsc { consumer, cons: r.cons.wrapping_add(1), ..r },
            Some(r.slots[(i % r.size) as int]),
        ),
    }
}

proof fn lemma_slot_add(a: u32, d: int, size: u32)
    requires
        size > 0,
        0x1_0000_0000int % (size as int) == 0,
        0 <= d < 0x1_0000_0000,
    ensures
        a.wrapping_add(d as u32) % size == (a + d) % (size as int),
{
    let m = 0x1_0000_0000int;
    let q = m / (size as int);
    lemma_fundamental_div_mod(m, size as int);
    assert(m == size * q);
    assert(q > 0) by (nonlinear_arith)
        requires
            m == size * q,
            m > 0,
            size > 0,
    ;
    lemma_mod_mod(a + d, size as int, q);
    assert(a.wrapping_add(d as u32) == (a + d) % m);
}

proof fn lemma_slots_distinct(a: int, d1: int, d2: int, size: int)
    requires
        size > 0,
        0 <= d1 < d2 < size,
    ensures
        (a + d1) % size != (a + d2) % size,
{
    if (a + d1) % size == (a + d2) % size {
        lemma_sub_mod_noop(a + d2, a + d1, size);
        lemma_small_mod((d2 - d1) as nat, size as nat);
        lemma_small_mod(0nat, size as nat);
    }
}

/// A new ring is in order and empty.
pub proof fn lemma_fresh<T>(size: u32, slots: Seq<T>)
    requires
        size > 0,
        0x1_0000_0000int % (size as int) == 0,
        slots.len() == size,
    ensures
        inv(fresh(size, slots)),
        queue(fresh(size, slots)) == Seq::<T>::empty(),
{
    assert(queue(fresh(size, slots)) =~= Seq::<T>::empty());
}

/// Sending appends: where the ring has room, the item becomes the newest
/// entry and the older ones stay; it has no room only when it is full.
pub proof fn lemma_produce<T>(r: Spsc<T>, item: T)
    requires
        inv(r),
    ensures
        inv(produce(r, item).0),
        produce(r, item).1 ==> queue(produce(r, item).0) == queue(r).push(item),
        !produce(r, item).1 ==> queue(produce(r, item).0) == queue(r) && filled(r) == r.size,
{
    let (after, sent) = produce(r, item);
    let n = filled(r);
    if sent {
        assert(r.cons.wrapping_add(n) == r.prod);
        lemma_slot_add(r.cons, n as int, r.size);
        assert forall|k: int| 0 <= k < n + 1 implies #[trigger] queue(after)[k] == queue(r).push(
            item,
        )[k] by {
            lemma_slot_add(r.cons, k, r.size);
            if k < n {
                lemma_slots_distinct(r.cons as int, k, n as int, r.size as int);
            }
        }
        assert(queue(after) =~= queue(r).push(item));
    } else {
        assert(queue(after) =~= queue(r));
    }
}

/// Receiving takes the oldest: where the ring holds an entry, the oldest one
/// comes out and the others stay in order; nothing comes out only when the
/// ring is empty.
pub proof fn lemma_consume<T>(r: Spsc<T>)
    requires
        inv(r),
    ensures
        inv(consume(r).0),
        match consume(r).1 {
            Some(item) => queue(r).len() > 0 && item == queue(r)[0] && queue(consume(r).0)
                == queue(r).skip(1),
            None => queue(r).len() == 0 && queue(consume(r).0) == queue(r),
        },
{
    let (after, got) = consume(r);
    if got.is_some() {
        assert(r.cons.wrapping_add(0) == r.cons);
        assert forall|k: int| 0 <= k < filled(after) implies #[trigger] queue(after)[k] == queue(
            r,
        ).skip(1)[k] by {
            assert(after.cons.wrapping_add(k as u32) == r.cons.wrapping_add((k + 1) as u32));
        }
        assert(queue(after) =~= queue(r).skip(1));
    } else {
        assert(queue(after) =~= queue(r));
    }
}

/// The ring after the items of `items` were sent in order, if each found
/// room.
pub open spec fn produce_all<T>(r: Spsc<T>, items: Seq<T>) -> Option<Spsc<T>>
    decreases items.len(),
{
    if items.len() == 0 {
        Some(r)
    } else {
        match produce_all(r, items.drop_last()) {
            None => None,
            Some(before) => if produce(before, items.last()).1 {
                Some(produce(before, items.last()).0)
            } else {
                None
            },
        }
    }
}

/// The ring after `n` entries were received, and the entries that came out,
/// in the order in which they came; an attempt that finds the ring empty
/// yields none.
pub open spec fn consume_n<T>(r: Spsc<T>, n: nat) -> (Spsc<T>, Seq<T>)
    decreases n,
{
    if n == 0 {
        (r, Seq::empty())
    } else {
        let (before, got) = consume_n(r, (n - 1) as nat);
        match consume(before).1 {
            None => (consume(before).0, got),
            Some(item) => (consume(before).0, got.push(item)),
        }
    }
}

proof fn lemma_produce_all<T>(r: Spsc<T>, items: Seq<T>)
    requires
        inv(r),
        produce_all(r, items).is_some(),
    ensures
        inv(produce_all(r, items).unwrap()),
        queue(produce_all(r, items).unwrap()) == queue(r) + items,
    decreases items.len(),
{
    if items.len() == 0 {
        assert(queue(r) + items =~= queue(r));
    } else {
        lemma_produce_all(r, items.drop_last());
        let before = produce_all(r, items.drop_last()).unwrap();
        lemma_produce(before, items.last());
        assert((queue(r) + items.drop_last()).push(items.last()) =~= queue(r) + items);
    }
}

proof fn lemma_consume_n<T>(r: Spsc<T>, n: nat)
    requires
        inv(r),
        n <= queue(r).len(),
    ensures
        inv(consume_n(r, n).0),
        consume_n(r, n).1 == queue(r).take(n as int),
        queue(consume_n(r, n).0) == queue(r).skip(n as int),
    decreases n,
{
    if n == 0 {
        assert(queue(r).take(0) =~= Seq::<T>::empty());
        assert(queue(r).skip(0) =~= queue(r));
    } else {
        lemma_consume_n(r, (n - 1) as nat);
        let (before, got) = consume_n(r, (n - 1) as nat);
        lemma_consume(before);
        assert(queue(r).take(n - 1).push(queue(r)[n - 1]) =~= queue(r).take(n as int));
        assert(queue(r).skip(n - 1).skip(1) =~= queue(r).skip(n as int));
    }
}

/// One producer, one consumer: the items sent into a new ring, each of which
/// found room, come out in the order in which they went in, none lost and
/// none twice, and leave the ring empty.
pub proof fn lemma_fifo<T>(size: u32, slots: Seq<T>, items: Seq<T>)
    requires
        size > 0,
        0x1_0000_0000int % (size as int) == 0,
        slots.len() == size,
        produce_all(fresh(size, slots), items).is_some(),
    ensures
        consume_n(produce_all(fresh(size, slots), items).unwrap(), items.len()).1 == items,
        queue(consume_n(produce_all(fresh(size, slots), items).unwrap(), items.len()).0)
            == Seq::<T>::empty(),
{
    let start = fresh(size, slots);
    lemma_fresh(size, slots);
    lemma_produce_all(start, items);
    let full = produce_all(start, items).unwrap();
    assert(queue(full) =~= items);
    lemma_consume_n(full, items.len());
    assert(items.take(items.len() as int) =~= items);
    assert(items.skip(items.len() as int) =~= Seq::<T>::empty());
}

} // verus!
