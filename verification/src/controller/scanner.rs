//! The scanner: which target the k-th SYN of a session goes to. The keyed
//! shuffle that spreads the ticks over the targets is handed in by whoever
//! runs the scanner; a probe goes out only where the shuffle answers with a
//! position of the ranges.

use crate::controller::sender::{PacketSpec, PacketTemplate};
use crate::net::range::{
    disjoint, in_image, lemma_index_in_image, lemma_index_injective, target_at, CompiledRanges,
};
use crate::net::tcp::{cookie, cookie_value, Ipv4, TcpFlags, SYN_BIT};
use core::sync::atomic::{AtomicU64, Ordering};
use vstd::prelude::*;

verus! {

/// The rounds of the keyed shuffle of a session.
pub const SHUFFLE_ROUNDS: usize = 3;

fn next_index(index: &AtomicU64) -> u64 {
    index.fetch_add(1, Ordering::Acquire)
}

/// The SYN to the target at position `position`: its sequence number is the
/// target's cookie, its acknowledgment zero, its source port left open.
pub open spec fn syn_to(ranges: CompiledRanges, seed: u64, position: int) -> PacketSpec {
    let target = target_at(ranges.ranges(), position);
    PacketSpec {
        flags: SYN_BIT,
        ip: target.0 as u32,
        source_port: None,
        port: target.1 as u16,
        seq: cookie_value(target.0 as u32, target.1 as u16, seed) as u32,
        ack: 0,
        body: None,
    }
}

/// Whether a segment is the SYN that opens the scan of one of the targets
/// of `ranges`: to a target of the ranges, with the target's cookie as its
/// sequence number, acknowledgment zero, and source port and payload left
/// open.
pub open spec fn is_probe(t: PacketSpec, ranges: CompiledRanges, seed: u64) -> bool {
    &&& t.flags == SYN_BIT
    &&& in_image(ranges.ranges(), (t.ip as int, t.port as int))
    &&& t.source_port.is_none()
    &&& t.seq == cookie_value(t.ip, t.port, seed)
    &&& t.ack == 0
    &&& t.body.is_none()
}

/// Sends the SYNs of a session: one target per tick, in shuffled order.
pub struct Scanner<'b> {
    ranges: &'b CompiledRanges,
    index: &'b AtomicU64,
    seed: u64,
}

impl<'b> Scanner<'b> {
    /// The ranges scanned.
    pub closed spec fn ranges(&self) -> CompiledRanges {
        *self.ranges
    }

    /// The seed of shuffle and cookies.
    pub closed spec fn seed(&self) -> u64 {
        self.seed
    }

    /// A scanner over `ranges` that takes its positions from the counter
    /// `index`, which all scanners of a session share.
    pub fn new(ranges: &'b CompiledRanges, index: &'b AtomicU64, seed: u64) -> (s: Self)
        requires
            ranges.wf(),
        ensures
            s.ranges() == *ranges,
            s.seed() == seed,
    {
        Scanner { ranges, index, seed }
    }

    /// The SYN to the target at `position`, if that is a position of the
    /// ranges.
    pub fn probe(&self, position: u64) -> (t: Option<PacketTemplate<'b>>)
        requires
            self.ranges().wf(),
        ensures
            probed(t) == probe_at(self.ranges(), self.seed(), position),
            t.is_some() ==> is_probe(t.unwrap()@, self.ranges(), self.seed()),
    {
        if position >= self.ranges.count() as u64 {
            return None;
        }
        proof {
            self.ranges().lemma_rects_ok();
            lemma_index_in_image(self.ranges().ranges(), position as int);
        }
        let (ip, port) = self.ranges.index(position as usize);
        Some(
            PacketTemplate::new(
                TcpFlags::syn(),
                ip,
                None,
                port,
                cookie(ip, port, self.seed),
                0,
                None,
            ),
        )
    }

    /// The SYN for the tick that drew `k` from the session's counter: the
    /// probe to the position that `shuffle` sends `k` to, while `k` is a
    /// position of the ranges. Once every position has been handed out the
    /// shuffle is not asked, and nothing is sent.
    pub fn tick_at<F: Fn(u64) -> u64>(&self, k: u64, shuffle: &F) -> (t: Option<
        PacketTemplate<'b>,
    >)
        requires
            self.ranges().wf(),
            k < self.ranges().spec_count() ==> call_requires(*shuffle, (k,)),
        ensures
            answers(shuffle, self.ranges(), self.seed(), k, probed(t)),
            t.is_some() ==> is_probe(t.unwrap()@, self.ranges(), self.seed()),
    {
        if k >= self.ranges.count() as u64 {
            return None;
        }
        let position = shuffle(k);
        let t = self.probe(position);
        assert(shuffled_to(shuffle, k, position));
        t
    }

    /// The next SYN of the session: draws the next number from the
    /// session's counter, which every scanner of the session shares, and
    /// hands back what `tick_at` makes of it.
    pub fn tick<F: Fn(u64) -> u64>(&mut self, shuffle: &F) -> (t: Option<PacketTemplate<'b>>)
        requires
            old(self).ranges().wf(),
            forall|k: u64| k < old(self).ranges().spec_count() ==> call_requires(*shuffle, (k,)),
        ensures
            final(self).ranges() == old(self).ranges(),
            final(self).seed() == old(self).seed(),
            exists|k: u64| #[trigger]
                answers(shuffle, old(self).ranges(), old(self).seed(), k, probed(t)),
            old(self).ranges().spec_count() == 0 ==> t.is_none(),
            t.is_some() ==> is_probe(t.unwrap()@, old(self).ranges(), old(self).seed()),
    {
        let k = next_index(self.index);
        let t = self.tick_at(k, shuffle);
        assert(answers(shuffle, self.ranges(), self.seed(), k, probed(t)));
        t
    }
}

/// The view of a probe, if there is one.
pub open spec fn probed<'b>(t: Option<PacketTemplate<'b>>) -> Option<PacketSpec> {
    match t {
        Some(p) => Some(p@),
        None => None,
    }
}

/// What is sent for a position: the SYN to the target there, if it is a
/// position of the ranges; nothing otherwise.
pub open spec fn probe_at(ranges: CompiledRanges, seed: u64, position: u64) -> Option<PacketSpec> {
    if position < ranges.spec_count() {
        Some(syn_to(ranges, seed, position as int))
    } else {
        None
    }
}

/// Whether `position` is something that `shuffle` may answer when asked for
/// `k`.
pub open spec fn shuffled_to<F: Fn(u64) -> u64>(shuffle: &F, k: u64, position: u64) -> bool {
    call_ensures(*shuffle, (k,), position)
}

/// Whether `out` is what the tick that drew `k` sends: nothing once `k` is
/// past the positions of the ranges, and before that the probe for a
/// position that `shuffle` answers for `k`.
pub open spec fn answers<F: Fn(u64) -> u64>(
    shuffle: &F,
    ranges: CompiledRanges,
    seed: u64,
    k: u64,
    out: Option<PacketSpec>,
) -> bool {
    if k < ranges.spec_count() {
        exists|position: u64| #[trigger]
            shuffled_to(shuffle, k, position) && out == probe_at(ranges, seed, position)
    } else {
        out.is_none()
    }
}

/// Whether `shuffle` permutes the positions below `count`: asked for a
/// number below `count` it answers with a position below `count`, and asked
/// for two different numbers it answers with two different positions.
pub open spec fn permutes<F: Fn(u64) -> u64>(shuffle: &F, count: int) -> bool {
    &&& forall|k: u64, position: u64|
        k < count && #[trigger] shuffled_to(shuffle, k, position) ==> position < count
    &&& forall|k1: u64, k2: u64, first: u64, second: u64|
        k1 < count && k2 < count && k1 != k2 && #[trigger] shuffled_to(shuffle, k1, first)
            && #[trigger] shuffled_to(shuffle, k2, second) ==> first != second
}

/// With a shuffle that permutes the positions, every tick that draws a
/// number below the count sends a probe, and two ticks that draw different
/// numbers send their probes to different targets, where no target lies in
/// two ranges. So the ticks that draw the numbers below the count send one
/// SYN to each target, and no tick after them sends any.
pub proof fn lemma_ticks_visit_each_target_once<F: Fn(u64) -> u64>(
    shuffle: &F,
    ranges: CompiledRanges,
    seed: u64,
    k1: u64,
    k2: u64,
    out1: Option<PacketSpec>,
    out2: Option<PacketSpec>,
)
    requires
        ranges.wf(),
        disjoint(ranges.ranges()),
        permutes(shuffle, ranges.spec_count()),
        k1 != k2,
        answers(shuffle, ranges, seed, k1, out1),
        answers(shuffle, ranges, seed, k2, out2),
    ensures
        k1 < ranges.spec_count() <==> out1.is_some(),
        k2 < ranges.spec_count() <==> out2.is_some(),
        out1.is_some() && out2.is_some() ==> out1.unwrap().ip != out2.unwrap().ip
            || out1.unwrap().port != out2.unwrap().port,
{
    let count = ranges.spec_count();
    if k1 < count && k2 < count {
        let first = choose|position: u64| #[trigger]
            shuffled_to(shuffle, k1, position) && out1 == probe_at(ranges, seed, position);
        let second = choose|position: u64| #[trigger]
            shuffled_to(shuffle, k2, position) && out2 == probe_at(ranges, seed, position);
        assert(first < count && second < count && first != second);
        ranges.lemma_rects_ok();
        lemma_index_in_image(ranges.ranges(), first as int);
        lemma_index_in_image(ranges.ranges(), second as int);
        if target_at(ranges.ranges(), first as int) == target_at(ranges.ranges(), second as int) {
            lemma_index_injective(ranges.ranges(), first as int, second as int);
        }
    } else if k1 < count {
        let first = choose|position: u64| #[trigger]
            shuffled_to(shuffle, k1, position) && out1 == probe_at(ranges, seed, position);
        assert(first < count);
    } else if k2 < count {
        let second = choose|position: u64| #[trigger]
            shuffled_to(shuffle, k2, position) && out2 == probe_at(ranges, seed, position);
        assert(second < count);
    }
}

} // verus!
