//! The four AF_XDP rings as user space sees them: single-producer,
//! single-consumer queues whose counters are shared with the kernel. A ring
//! end keeps cached copies of both counters and reads the shared ones only
//! when the cached ones do not do.

use crate::net::reduced::{divisor_of_u32, reduce_u32, rem_u32};
use core::sync::atomic::{AtomicU32, Ordering};
use strength_reduce::StrengthReducedU32;
use vstd::prelude::*;

verus! {

/// Set by the kernel in a ring's flags word when it wants a wakeup call
/// before user space blocks.
pub const XDP_RING_NEED_WAKEUP: u32 = 1;

pub const XDP_MMAP_OFFSETS: i32 = 1;

pub const XDP_RX_RING: i32 = 2;

pub const XDP_TX_RING: i32 = 3;

pub const XDP_UMEM_REG: i32 = 4;

pub const XDP_UMEM_FILL_RING: i32 = 5;

pub const XDP_UMEM_COMPLETION_RING: i32 = 6;

pub const XDP_PGOFF_RX_RING: i64 = 0;

pub const XDP_PGOFF_TX_RING: i64 = 0x8000_0000;

pub const XDP_UMEM_PGOFF_FILL_RING: i64 = 0x1_0000_0000;

pub const XDP_UMEM_PGOFF_COMPLETION_RING: i64 = 0x1_8000_0000;

/// An entry of the TX and RX rings.
#[derive(Clone, Copy, Debug, PartialEq, Eq, Structural)]
pub struct Descriptor {
    /// Where the frame's data starts in UMEM. In unaligned mode the upper 16
    /// bits hold an offset and the lower 48 the chunk's address.
    pub addr: u64,
    pub len: u32,
    pub options: u32,
}

/// Where the parts of one ring lie in its mapping.
#[derive(Clone, Copy, Debug, PartialEq, Eq, Structural)]
pub struct RingOffset {
    pub producer: u64,
    pub consumer: u64,
    pub desc: u64,
    pub flags: u64,
}

/// What `XDP_MMAP_OFFSETS` reports: the layout of all four rings.
#[derive(Clone, Copy, Debug, PartialEq, Eq, Structural)]
pub struct MmapOffsets {
    pub rx: RingOffset,
    pub tx: RingOffset,
    pub fr: RingOffset,
    pub cr: RingOffset,
}

#[derive(Clone, Copy, Debug, PartialEq, Eq, Structural)]
pub enum RingKind {
    /// User to kernel: addresses of frames free to receive into.
    Fill,
    /// Kernel to user: addresses of frames whose transmission is done.
    Complete,
    /// User to kernel: descriptors of frames to transmit.
    Tx,
    /// Kernel to user: descriptors of frames received.
    Rx,
}

impl MmapOffsets {
    /// The layout of the ring of the given kind.
    pub fn get_offset(&self, kind: &RingKind) -> (o: &RingOffset)
        ensures
            *o == match *kind {
                RingKind::Fill => self.fr,
                RingKind::Complete => self.cr,
                RingKind::Tx => self.tx,
                RingKind::Rx => self.rx,
            },
    {
        match kind {
            RingKind::Fill => &self.fr,
            RingKind::Complete => &self.cr,
            RingKind::Tx => &self.tx,
            RingKind::Rx => &self.rx,
        }
    }
}

/// The length of a ring's mapping: the entry array of `size` entries of
/// `entry_size` bytes each, which lies at the end, and all before it. None
/// where that cannot be written in a `usize`.
pub fn mapping_len(offset: &RingOffset, size: u32, entry_size: usize) -> (len: Option<usize>)
    ensures
        len == if offset.desc + size * entry_size <= usize::MAX {
            Some((offset.desc + size * entry_size) as usize)
        } else {
            None::<usize>
        },
{
    let entries: Option<usize> = (size as usize).checked_mul(entry_size);
    match entries {
        None => {
            assert(offset.desc + size * entry_size > usize::MAX);
            None
        },
        Some(bytes) => {
            if offset.desc > (usize::MAX - bytes) as u64 {
                None
            } else {
                Some(offset.desc as usize + bytes)
            }
        },
    }
}

impl RingKind {
    /// The page offset at which the ring is mapped.
    pub fn get_page_offset(&self) -> (o: i64)
        ensures
            o == match *self {
                RingKind::Fill => XDP_UMEM_PGOFF_FILL_RING,
                RingKind::Complete => XDP_UMEM_PGOFF_COMPLETION_RING,
                RingKind::Tx => XDP_PGOFF_TX_RING,
                RingKind::Rx => XDP_PGOFF_RX_RING,
            },
    {
        match self {
            RingKind::Fill => XDP_UMEM_PGOFF_FILL_RING,
            RingKind::Complete => XDP_UMEM_PGOFF_COMPLETION_RING,
            RingKind::Tx => XDP_PGOFF_TX_RING,
            RingKind::Rx => XDP_PGOFF_RX_RING,
        }
    }

    /// The socket option that sets the ring's size.
    pub fn get_opt_name(&self) -> (name: i32)
        ensures
            name == match *self {
                RingKind::Fill => XDP_UMEM_FILL_RING,
                RingKind::Complete => XDP_UMEM_COMPLETION_RING,
                RingKind::Tx => XDP_TX_RING,
                RingKind::Rx => XDP_RX_RING,
            },
    {
        match self {
            RingKind::Fill => XDP_UMEM_FILL_RING,
            RingKind::Complete => XDP_UMEM_COMPLETION_RING,
            RingKind::Tx => XDP_TX_RING,
            RingKind::Rx => XDP_RX_RING,
        }
    }
}

/// A reading of a ring's flags word.
#[derive(Clone, Copy, Debug, PartialEq, Eq, Structural)]
pub struct RingFlags(pub u32);

impl RingFlags {
    /// Whether the kernel asked for a wakeup call.
    pub fn needs_wakeup(&self) -> (b: bool)
        ensures
            b == (self.0 & XDP_RING_NEED_WAKEUP != 0),
    {
        (self.0 & XDP_RING_NEED_WAKEUP) != 0
    }
}

/// The cached counters of one ring end.
pub struct Cursor {
    pub cached_prod: u32,
    pub cached_cons: u32,
}

/// The cached counters a ring end starts with, given the shared counters at
/// that time. A fill ring starts empty and all free, whatever the counters.
pub open spec fn initial_cursor(kind: RingKind, size: u32, producer: u32, consumer: u32)
    -> Cursor {
    match kind {
        RingKind::Fill => Cursor { cached_prod: 0, cached_cons: size },
        RingKind::Complete => Cursor { cached_prod: 0, cached_cons: 0 },
        RingKind::Tx => Cursor { cached_prod: producer, cached_cons: consumer.wrapping_add(size) },
        RingKind::Rx => Cursor { cached_prod: producer, cached_cons: consumer },
    }
}

/// The entries a producer may still reserve, going by its cached counters.
pub open spec fn free_of(c: Cursor) -> u32 {
    c.cached_cons.wrapping_sub(c.cached_prod)
}

/// A producer's counters once it has read the shared consumer counter.
pub open spec fn producer_refreshed(c: Cursor, size: u32, consumer: u32) -> Cursor {
    Cursor { cached_cons: consumer.wrapping_add(size), ..c }
}

/// A producer's counters after it asked for room for `n` entries: as they
/// were where the cached counters show that much room, refreshed from the
/// shared consumer counter `consumer` where they do not.
pub open spec fn free_spec(c: Cursor, size: u32, n: u32, consumer: u32) -> Cursor {
    if free_of(c) >= n {
        c
    } else {
        producer_refreshed(c, size, consumer)
    }
}

/// A producer reserving `n` entries: its counters afterwards, and the index
/// of the first entry reserved, if there was room.
pub open spec fn reserve_spec(c: Cursor, size: u32, n: u32, consumer: u32) -> (Cursor, Option<u32>) {
    let looked = free_spec(c, size, n, consumer);
    if free_of(looked) < n {
        (looked, None)
    } else {
        (Cursor { cached_prod: looked.cached_prod.wrapping_add(n), ..looked }, Some(looked.cached_prod))
    }
}

/// The entries a consumer may still take, going by its cached counters.
pub open spec fn ready_of(c: Cursor) -> u32 {
    c.cached_prod.wrapping_sub(c.cached_cons)
}

/// A consumer's counters after it looked for entries: as they were where the
/// cached counters show some, with the shared producer counter `producer`
/// taken in where they show none.
pub open spec fn available_spec(c: Cursor, producer: u32) -> Cursor {
    if ready_of(c) == 0 {
        Cursor { cached_prod: producer, ..c }
    } else {
        c
    }
}

/// The smaller of two counts.
pub open spec fn at_most(a: u32, b: u32) -> u32 {
    if a <= b {
        a
    } else {
        b
    }
}

/// A consumer taking up to `n` entries: its counters afterwards, and the
/// index of the first entry taken, if there was one.
pub open spec fn peek_spec(c: Cursor, n: u32, producer: u32) -> (Cursor, Option<u32>) {
    let looked = available_spec(c, producer);
    let entries = at_most(ready_of(looked), n);
    if entries > 0 {
        (Cursor { cached_cons: looked.cached_cons.wrapping_add(entries), ..looked }, Some(looked.cached_cons))
    } else {
        (looked, None)
    }
}

fn load_acquire(word: &AtomicU32) -> u32 {
    word.load(Ordering::Acquire)
}

fn load_relaxed(word: &AtomicU32) -> u32 {
    word.load(Ordering::Relaxed)
}

fn add_release(word: &AtomicU32, n: u32) -> u32 {
    word.fetch_add(n, Ordering::Release)
}

/// One end of a ring: the cached counters, the ring's size, and the three
/// words it shares with the other end.
pub struct Ring<'a> {
    cached_prod: u32,
    cached_cons: u32,
    size: u32,
    mask: StrengthReducedU32,
    prod: &'a AtomicU32,
    cons: &'a AtomicU32,
    flags: &'a AtomicU32,
}

impl<'a> Ring<'a> {
    /// The cached counters.
    pub closed spec fn cursor(&self) -> Cursor {
        Cursor { cached_prod: self.cached_prod, cached_cons: self.cached_cons }
    }

    /// The number of entries.
    pub closed spec fn spec_size(&self) -> u32 {
        self.size
    }

    /// The size is not zero, and indices are reduced modulo the size.
    pub closed spec fn wf(&self) -> bool {
        self.size > 0 && divisor_of_u32(self.mask) == self.size
    }

    /// A ring end of the given kind over the shared words, which at this
    /// time read `producer` and `consumer`.
    pub fn from_words(
        kind: RingKind,
        size: u32,
        producer: u32,
        consumer: u32,
        prod: &'a AtomicU32,
        cons: &'a AtomicU32,
        flags: &'a AtomicU32,
    ) -> (r: Self)
        requires
            size > 0,
        ensures
            r.wf(),
            r.spec_size() == size,
            r.cursor() == initial_cursor(kind, size, producer, consumer),
    {
        let (cached_prod, cached_cons) = match kind {
            RingKind::Fill => (0, size),
            RingKind::Complete => (0, 0),
            RingKind::Tx => (producer, consumer.wrapping_add(size)),
            RingKind::Rx => (producer, consumer),
        };
        Ring { cached_prod, cached_cons, size, mask: reduce_u32(size), prod, cons, flags }
    }

    /// A ring end of the given kind over the shared words as they read now.
    /// What a fill or completion ring starts with does not depend on them.
    pub fn new(
        kind: RingKind,
        size: u32,
        prod: &'a AtomicU32,
        cons: &'a AtomicU32,
        flags: &'a AtomicU32,
    ) -> (r: Self)
        requires
            size > 0,
        ensures
            r.wf(),
            r.spec_size() == size,
            kind == RingKind::Fill || kind == RingKind::Complete ==> r.cursor() == initial_cursor(
                kind,
                size,
                0,
                0,
            ),
    {
        let producer = load_relaxed(prod);
        let consumer = load_relaxed(cons);
        Ring::from_words(kind, size, producer, consumer, prod, cons, flags)
    }

    /// The flags word as it reads now.
    pub fn flags(&self) -> RingFlags {
        RingFlags(load_relaxed(self.flags))
    }

    /// The number of entries.
    pub fn size(&self) -> (n: u32)
        ensures
            n == self.spec_size(),
    {
        self.size
    }

    /// The slot of the entry array that the index `index` stands for.
    pub fn slot(&self, index: u32) -> (s: u32)
        requires
            self.wf(),
        ensures
            s == index % self.spec_size(),
    {
        rem_u32(index, self.mask)
    }
}

/// The producing end of a ring (TX, FILL).
pub struct Producer<'a>(pub Ring<'a>);

impl<'a> Producer<'a> {
    /// The entries free to reserve, at least `batch_size` if the ring has
    /// that many, given that the shared consumer counter reads `consumer`.
    pub fn free_with(&mut self, batch_size: u32, consumer: u32) -> (n: u32)
        ensures
            final(self).0.cursor() == free_spec(
                old(self).0.cursor(),
                old(self).0.spec_size(),
                batch_size,
                consumer,
            ),
            n == free_of(final(self).0.cursor()),
            final(self).0.spec_size() == old(self).0.spec_size(),
            final(self).0.wf() == old(self).0.wf(),
    {
        let free_entries = self.0.cached_cons.wrapping_sub(self.0.cached_prod);
        if free_entries >= batch_size {
            return free_entries;
        }
        self.0.cached_cons = consumer.wrapping_add(self.0.size);
        self.0.cached_cons.wrapping_sub(self.0.cached_prod)
    }

    /// The entries free to reserve. The shared consumer counter is read only
    /// where the cached counters show fewer than `batch_size`.
    pub fn free(&mut self, batch_size: u32) -> (n: u32)
        ensures
            n == free_of(final(self).0.cursor()),
            final(self).0.cursor().cached_prod == old(self).0.cursor().cached_prod,
            free_of(old(self).0.cursor()) >= batch_size ==> final(self).0.cursor() == old(self).0.cursor(),
            final(self).0.spec_size() == old(self).0.spec_size(),
            final(self).0.wf() == old(self).0.wf(),
    {
        if self.0.cached_cons.wrapping_sub(self.0.cached_prod) >= batch_size {
            self.free_with(batch_size, 0)
        } else {
            let consumer = load_acquire(self.0.cons);
            self.free_with(batch_size, consumer)
        }
    }

    /// Reserves `batch_size` entries, given that the shared consumer counter
    /// reads `consumer`: the index of the first, or nothing where the ring
    /// has not that much room.
    pub fn reserve_with(&mut self, batch_size: u32, consumer: u32) -> (index: Option<u32>)
        ensures
            (final(self).0.cursor(), index) == reserve_spec(
                old(self).0.cursor(),
                old(self).0.spec_size(),
                batch_size,
                consumer,
            ),
            final(self).0.spec_size() == old(self).0.spec_size(),
            final(self).0.wf() == old(self).0.wf(),
    {
        if self.free_with(batch_size, consumer) < batch_size {
            return None;
        }
        let index = self.0.cached_prod;
        self.0.cached_prod = self.0.cached_prod.wrapping_add(batch_size);
        Some(index)
    }

    /// Reserves `batch_size` entries: the index of the first, or nothing
    /// where the ring has not that much room. Succeeds without reading the
    /// shared counter where the cached counters show the room.
    pub fn reserve(&mut self, batch_size: u32) -> (index: Option<u32>)
        ensures
            free_of(old(self).0.cursor()) >= batch_size ==> index.is_some(),
            match index {
                Some(first) => first == old(self).0.cursor().cached_prod && final(self).0.cursor().cached_prod == first.wrapping_add(batch_size) && final(self).0.cursor().cached_cons.wrapping_sub(first) >= batch_size,
                None => final(self).0.cursor().cached_prod == old(self).0.cursor().cached_prod
                    && free_of(final(self).0.cursor()) < batch_size,
            },
            final(self).0.spec_size() == old(self).0.spec_size(),
            final(self).0.wf() == old(self).0.wf(),
    {
        if self.0.cached_cons.wrapping_sub(self.0.cached_prod) >= batch_size {
            self.reserve_with(batch_size, 0)
        } else {
            let consumer = load_acquire(self.0.cons);
            self.reserve_with(batch_size, consumer)
        }
    }

    /// Hands `batch_size` reserved entries to the consumer: adds that to the
    /// shared producer counter and returns what it read before.
    pub fn submit(&self, batch_size: u32) -> u32 {
        add_release(self.0.prod, batch_size)
    }
}

/// The consuming end of a ring (RX, COMPLETION).
pub struct Consumer<'a>(pub Ring<'a>);

impl<'a> Consumer<'a> {
    /// The entries ready to take, `batch_size` at most, given that the
    /// shared producer counter reads `producer`.
    pub fn available_with(&mut self, batch_size: u32, producer: u32) -> (n: u32)
        ensures
            final(self).0.cursor() == available_spec(old(self).0.cursor(), producer),
            n == at_most(ready_of(final(self).0.cursor()), batch_size),
            final(self).0.spec_size() == old(self).0.spec_size(),
            final(self).0.wf() == old(self).0.wf(),
    {
        let mut entries = self.0.cached_prod.wrapping_sub(self.0.cached_cons);
        if entries == 0 {
            self.0.cached_prod = producer;
            entries = self.0.cached_prod.wrapping_sub(self.0.cached_cons);
        }
        if entries <= batch_size {
            entries
        } else {
            batch_size
        }
    }

    /// The entries ready to take, `batch_size` at most. The shared producer
    /// counter is read only where the cached counters show none.
    pub fn available(&mut self, batch_size: u32) -> (n: u32)
        ensures
            n == at_most(ready_of(final(self).0.cursor()), batch_size),
            final(self).0.cursor().cached_cons == old(self).0.cursor().cached_cons,
            ready_of(old(self).0.cursor()) > 0 ==> final(self).0.cursor() == old(self).0.cursor(),
            final(self).0.spec_size() == old(self).0.spec_size(),
            final(self).0.wf() == old(self).0.wf(),
    {
        if self.0.cached_prod.wrapping_sub(self.0.cached_cons) == 0 {
            let producer = load_acquire(self.0.prod);
            self.available_with(batch_size, producer)
        } else {
            self.available_with(batch_size, 0)
        }
    }

    /// Takes up to `batch_size` entries, given that the shared producer
    /// counter reads `producer`: the index of the first, or nothing where
    /// none is ready.
    pub fn peek_with(&mut self, batch_size: u32, producer: u32) -> (index: Option<u32>)
        ensures
            (final(self).0.cursor(), index) == peek_spec(
                old(self).0.cursor(),
                batch_size,
                producer,
            ),
            final(self).0.spec_size() == old(self).0.spec_size(),
            final(self).0.wf() == old(self).0.wf(),
    {
        let entries = self.available_with(batch_size, producer);
        if entries > 0 {
            let index = self.0.cached_cons;
            self.0.cached_cons = self.0.cached_cons.wrapping_add(entries);
            return Some(index);
        }
        None
    }

    /// Takes up to `batch_size` entries: the index of the first, or nothing
    /// where none is ready. Succeeds without reading the shared counter
    /// where the cached counters show an entry and `batch_size` is not zero.
    pub fn peek(&mut self, batch_size: u32) -> (index: Option<u32>)
        ensures
            ready_of(old(self).0.cursor()) > 0 && batch_size > 0 ==> index.is_some(),
            batch_size == 0 ==> index.is_none(),
            match index {
                Some(first) => first == old(self).0.cursor().cached_cons && final(self).0.cursor().cached_cons.wrapping_sub(first) <= batch_size && final(self).0.cursor().cached_cons != first,
                None => final(self).0.cursor().cached_cons == old(self).0.cursor().cached_cons,
            },
            final(self).0.spec_size() == old(self).0.spec_size(),
            final(self).0.wf() == old(self).0.wf(),
    {
        if self.0.cached_prod.wrapping_sub(self.0.cached_cons) == 0 {
            let producer = load_acquire(self.0.prod);
            self.peek_with(batch_size, producer)
        } else {
            self.peek_with(batch_size, 0)
        }
    }

    /// Hands `batch_size` taken entries back to the producer: adds that to
    /// the shared consumer counter and returns what it read before.
    pub fn release(&self, batch_size: u32) -> u32 {
        add_release(self.0.cons, batch_size)
    }
}

} // verus!
