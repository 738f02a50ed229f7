//! Scan ranges: lists of inclusive IPv4 ranges, each paired with an
//! inclusive port range; the removal of excluded addresses; and the compiled
//! form in which the k-th target is found by binary search.

use crate::net::reduced::{div_rem, divisor_of, reduce};
use crate::net::tcp::Ipv4;
use core::ops::Range;
use strength_reduce::StrengthReducedUsize;
use vstd::prelude::*;

verus! {

/// A scan target.
pub type Address = (Ipv4, u16);

pub type CompiledRanges = Ranges<Address, CompilationInfo, usize>;

pub type AddressRanges = Ranges<Address>;

pub type Ipv4Ranges = Ranges<Ipv4>;

pub type PortRanges = Ranges<u16>;

/// Where a compiled range lies in the flattened space.
pub struct CompilationInfo {
    port_count: StrengthReducedUsize,
    index: usize,
    count: usize,
}

/// A list of ranges. A `Range` here includes its `end`: `a..b` stands for
/// every value from `a` to `b`, both included, and `a..a` for `a` alone.
pub struct Ranges<T, E = (), C = ()> {
    inner: Vec<(Range<T>, E)>,
    count: C,
}

impl<T, E, C> Ranges<T, E, C> {
    /// The ranges with what is attached to each, in order.
    pub closed spec fn entries(&self) -> Seq<(Range<T>, E)> {
        self.inner@
    }

    /// The ranges, in order.
    pub open spec fn ranges(&self) -> Seq<Range<T>> {
        Seq::new(self.entries().len(), |i: int| self.entries()[i].0)
    }

    /// The number of ranges.
    pub fn len(&self) -> (n: usize)
        ensures
            n == self.ranges().len(),
    {
        self.inner.len()
    }

    /// The `i`-th range.
    pub fn get(&self, i: usize) -> (r: &Range<T>)
        requires
            i < self.ranges().len(),
        ensures
            *r == self.ranges()[i as int],
    {
        &self.inner[i].0
    }

    pub fn into_inner(self) -> (inner: Vec<(Range<T>, E)>)
        ensures
            inner@ == self.entries(),
    {
        self.inner
    }
}

impl<T> Ranges<T, (), ()> {
    /// The list of one range.
    pub fn from_range(value: Range<T>) -> (r: Self)
        ensures
            r.ranges() == seq![value],
    {
        let mut inner: Vec<(Range<T>, ())> = Vec::new();
        inner.push((value, ()));
        let r = Ranges { inner, count: () };
        assert(r.ranges() =~= seq![value]);
        r
    }

    /// The list of the given ranges, in their order.
    pub fn from_vec(value: Vec<Range<T>>) -> (r: Self)
        ensures
            r.ranges() == value@,
    {
        let ghost given = value@;
        let mut value = value;
        let mut stack: Vec<Range<T>> = Vec::new();
        while value.len() > 0
            invariant
                value@.len() + stack@.len() == given.len(),
                forall|i: int| 0 <= i < value@.len() ==> value@[i] == given[i],
                forall|i: int|
                    0 <= i < stack@.len() ==> #[trigger] stack@[i] == given[given.len() - 1 - i],
            decreases value@.len(),
        {
            let last = value.pop().unwrap();
            stack.push(last);
        }
        let mut inner: Vec<(Range<T>, ())> = Vec::new();
        while stack.len() > 0
            invariant
                stack@.len() + inner@.len() == given.len(),
                forall|i: int|
                    0 <= i < stack@.len() ==> #[trigger] stack@[i] == given[given.len() - 1 - i],
                forall|i: int| 0 <= i < inner@.len() ==> (#[trigger] inner@[i]).0 == given[i],
            decreases stack@.len(),
        {
            let next = stack.pop().unwrap();
            inner.push((next, ()));
        }
        let r = Ranges { inner, count: () };
        assert(r.ranges() =~= given);
        r
    }
}

/// Whether the rectangle `r` of addresses and ports holds `a`.
pub open spec fn in_rect(r: Range<Address>, a: (int, int)) -> bool {
    r.start.0 <= a.0 <= r.end.0 && r.start.1 <= a.1 <= r.end.1
}

/// A rectangle that is not empty: neither its addresses nor its ports run
/// backwards.
pub open spec fn rect_ok(r: Range<Address>) -> bool {
    r.start.0 <= r.end.0 && r.start.1 <= r.end.1
}

/// Whether some rectangle of the list holds `a`.
pub open spec fn in_image(rects: Seq<Range<Address>>, a: (int, int)) -> bool {
    exists|i: int| 0 <= i < rects.len() && in_rect(#[trigger] rects[i], a)
}

/// The number of ports of a rectangle.
pub open spec fn ports_in(r: Range<Address>) -> int {
    r.end.1 - r.start.1 + 1
}

/// The number of targets of a rectangle.
#[verifier::opaque]
pub open spec fn size_of_rect(r: Range<Address>) -> int {
    (r.end.0 - r.start.0 + 1) * ports_in(r)
}

/// The number of targets of a list of rectangles, each counted for itself.
pub open spec fn total_size(rects: Seq<Range<Address>>) -> int
    decreases rects.len(),
{
    if rects.len() == 0 {
        0
    } else {
        total_size(rects.drop_last()) + size_of_rect(rects.last())
    }
}

/// The `k`-th target of a rectangle: addresses ascending, and for each
/// address its ports ascending.
pub open spec fn target_in(r: Range<Address>, k: int) -> (int, int) {
    (r.start.0 + k / ports_in(r), r.start.1 + k % ports_in(r))
}

/// The `k`-th target of a list of rectangles laid end to end.
pub open spec fn target_at(rects: Seq<Range<Address>>, k: int) -> (int, int)
    decreases rects.len(),
{
    if rects.len() == 0 {
        (0, 0)
    } else if k >= total_size(rects.drop_last()) {
        target_in(rects.last(), k - total_size(rects.drop_last()))
    } else {
        target_at(rects.drop_last(), k)
    }
}

/// The size of a prefix grows by the size of the rectangle it takes in.
pub proof fn lemma_total_step(rects: Seq<Range<Address>>, i: int)
    requires
        0 <= i < rects.len(),
    ensures
        total_size(rects.take(i + 1)) == total_size(rects.take(i)) + size_of_rect(rects[i]),
{
    assert(rects.take(i + 1).drop_last() =~= rects.take(i));
}

/// A rectangle that is not empty holds at least one target, and at least
/// one port.
pub proof fn lemma_rect_size(r: Range<Address>)
    requires
        rect_ok(r),
    ensures
        1 <= ports_in(r) <= size_of_rect(r),
        r.end.0 - r.start.0 + 1 <= size_of_rect(r),
        size_of_rect(r) <= 0x1_0000_0000 * 0x1_0000,
{
    reveal(size_of_rect);
    let a = r.end.0 - r.start.0 + 1;
    let b = ports_in(r);
    assert(b <= a * b && a <= a * b && a * b <= 0x1_0000_0000 * 0x1_0000) by (nonlinear_arith)
        requires
            1 <= a <= 0x1_0000_0000,
            1 <= b <= 0x1_0000,
    ;
}

/// Prefixes of a list of rectangles that are not empty grow in size.
pub proof fn lemma_total_mono(rects: Seq<Range<Address>>, i: int, j: int)
    requires
        0 <= i <= j <= rects.len(),
        forall|n: int| 0 <= n < rects.len() ==> rect_ok(#[trigger] rects[n]),
    ensures
        0 <= total_size(rects.take(i)) <= total_size(rects.take(j)),
    decreases j,
{
    if j == 0 {
        assert(rects.take(0) =~= Seq::<Range<Address>>::empty());
    } else if i == j {
        lemma_total_mono(rects, 0, j - 1);
        lemma_total_step(rects, j - 1);
        lemma_rect_size(rects[j - 1]);
    } else {
        lemma_total_mono(rects, i, j - 1);
        lemma_total_step(rects, j - 1);
        lemma_rect_size(rects[j - 1]);
    }
}

impl CompilationInfo {
    /// The position of the range's first target in the flattened space.
    pub closed spec fn spec_index(&self) -> int {
        self.index as int
    }

    /// The number of targets of the range.
    pub closed spec fn spec_count(&self) -> int {
        self.count as int
    }

    /// The number of ports of the range, by which positions are divided.
    pub closed spec fn spec_ports(&self) -> int {
        divisor_of(self.port_count) as int
    }
}

impl Ranges<Address, (), ()> {
    /// No rectangle is empty, and the targets can be counted in a `usize`.
    pub open spec fn compilable(&self) -> bool {
        &&& forall|i: int| 0 <= i < self.ranges().len() ==> rect_ok(#[trigger] self.ranges()[i])
        &&& total_size(self.ranges()) <= usize::MAX
    }

    /// Whether `compile` may be called.
    pub fn can_compile(&self) -> (b: bool)
        ensures
            b == self.compilable(),
    {
        let ghost rects = self.ranges();
        let mut total: u128 = 0;
        let mut i: usize = 0;
        while i < self.inner.len()
            invariant
                rects == self.ranges(),
                i <= self.inner@.len(),
                forall|n: int| 0 <= n < i ==> rect_ok(#[trigger] rects[n]),
                total == total_size(rects.take(i as int)),
                total <= i * 0x1_0000_0000_0000,
            decreases self.inner@.len() - i,
        {
            let start = self.inner[i].0.start;
            let end = self.inner[i].0.end;
            assert(rects[i as int] == self.inner@[i as int].0);
            if start.0 > end.0 || start.1 > end.1 {
                return false;
            }
            proof {
                lemma_rect_size(rects[i as int]);
                lemma_total_step(rects, i as int);
            }
            let ports: u128 = (end.1 - start.1) as u128 + 1;
            let addresses: u128 = (end.0 - start.0) as u128 + 1;
            assert(addresses * ports <= 0x1_0000_0000_0000) by (nonlinear_arith)
                requires
                    addresses <= 0x1_0000_0000,
                    ports <= 0x1_0000,
            ;
            assert(addresses * ports == size_of_rect(rects[i as int])) by {
                reveal(size_of_rect);
            }
            total = total + addresses * ports;
            i += 1;
        }
        assert(rects.take(i as int) =~= rects);
        if total > usize::MAX as u128 {
            return false;
        }
        true
    }

    /// Lays the rectangles end to end: each gets the position of its first
    /// target and the number of its targets, and the whole its cardinality.
    pub fn compile(self) -> (c: CompiledRanges)
        requires
            self.compilable(),
        ensures
            c.wf(),
            c.ranges() == self.ranges(),
            c.spec_count() == total_size(self.ranges()),
    {
        let ghost rects = self.ranges();
        let mut ranges: Vec<(Range<Address>, CompilationInfo)> = Vec::with_capacity(
            self.inner.len(),
        );
        let mut index: usize = 0;
        let mut i: usize = 0;
        while i < self.inner.len()
            invariant
                rects == self.ranges(),
                self.compilable(),
                i <= self.inner@.len(),
                ranges@.len() == i,
                index == total_size(rects.take(i as int)),
                forall|n: int| 0 <= n < i ==> entry_ok(rects, #[trigger] ranges@[n], n),
            decreases self.inner@.len() - i,
        {
            let start = self.inner[i].0.start;
            let end = self.inner[i].0.end;
            proof {
                assert(rects[i as int] == self.inner@[i as int].0);
                lemma_rect_size(rects[i as int]);
                lemma_total_step(rects, i as int);
                lemma_total_mono(rects, i as int + 1, rects.len() as int);
                assert(rects.take(rects.len() as int) =~= rects);
            }
            let port_count: usize = (end.1 - start.1) as usize + 1;
            let addresses: u64 = (end.0 - start.0) as u64 + 1;
            assert(addresses * port_count == size_of_rect(rects[i as int])) by {
                reveal(size_of_rect);
            }
            let count: usize = (addresses as usize) * port_count;
            ranges.push(
                (
                    Range { start, end },
                    CompilationInfo { port_count: reduce(port_count), count, index },
                ),
            );
            index += count;
            i += 1;
        }
        let c = Ranges { inner: ranges, count: index };
        proof {
            assert(rects.take(i as int) =~= rects);
            assert(c.ranges() =~= rects);
        }
        c
    }
}

/// What `compile` attaches to the `n`-th rectangle of `rects`: it starts
/// where the rectangles before it end, counts its own targets, and divides
/// by its own number of ports.
pub open spec fn entry_ok(
    rects: Seq<Range<Address>>,
    entry: (Range<Address>, CompilationInfo),
    n: int,
) -> bool {
    &&& entry.0 == rects[n]
    &&& rect_ok(entry.0)
    &&& entry.1.spec_index() == total_size(rects.take(n))
    &&& entry.1.spec_count() == size_of_rect(entry.0)
    &&& entry.1.spec_ports() == ports_in(entry.0)
}

impl Ranges<Address, CompilationInfo, usize> {
    /// The cardinality recorded.
    pub closed spec fn spec_count(&self) -> int {
        self.count as int
    }

    /// The list is as `compile` leaves it: no rectangle is empty, each is
    /// recorded with the position of its first target, the number of its
    /// targets and of its ports, and the cardinality is that of the whole.
    pub open spec fn wf(&self) -> bool {
        &&& forall|n: int|
            0 <= n < self.entries().len() ==> entry_ok(self.ranges(), #[trigger] self.entries()[n], n)
        &&& self.spec_count() == total_size(self.ranges())
    }

    /// The number of targets.
    pub fn count(&self) -> (n: usize)
        ensures
            n == self.spec_count(),
    {
        self.count
    }

    /// The target at position `index` of the flattened space.
    pub fn index(&self, index: usize) -> (a: Address)
        requires
            self.wf(),
            index < self.spec_count(),
        ensures
            (a.0 as int, a.1 as int) == target_at(self.ranges(), index as int),
    {
        let ghost rects = self.ranges();
        let mut start: usize = 0;
        let mut end: usize = self.inner.len();
        proof {
            self.lemma_layout();
            assert(rects.take(0) =~= Seq::<Range<Address>>::empty());
            assert(rects.take(rects.len() as int) =~= rects);
            reveal(start_of);
        }
        while start < end
            invariant
                rects == self.ranges(),
                rects.len() == self.inner@.len(),
                0 <= start <= end <= self.inner@.len(),
                start_of(rects, start as int) <= index < start_of(rects, end as int),
                forall|n: int| 0 <= n < self.inner@.len() ==> laid_out(rects, #[trigger] self.inner@[n], n),
            decreases end - start,
        {
            let mid = start + (end - start) / 2;
            let entry = &self.inner[mid];
            assert(laid_out(rects, self.inner@[mid as int], mid as int));
            if entry.1.count <= index && entry.1.index <= index - entry.1.count {
                start = mid + 1;
            } else if entry.1.index > index {
                end = mid;
            } else {
                proof {
                    reveal(start_of);
                    lemma_target_found(rects, mid as int, index as int);
                }
                return target_of(entry, index - entry.1.index);
            }
        }
        proof {
            assert(false);
        }
        (0, 0)
    }

    /// No rectangle of a compiled list is empty.
    pub proof fn lemma_rects_ok(&self)
        requires
            self.wf(),
        ensures
            forall|n: int| 0 <= n < self.ranges().len() ==> rect_ok(#[trigger] self.ranges()[n]),
    {
        assert forall|n: int| 0 <= n < self.ranges().len() implies rect_ok(
            #[trigger] self.ranges()[n],
        ) by {
            assert(entry_ok(self.ranges(), self.entries()[n], n));
        }
    }

    /// Each entry starts where the entries before it end.
    proof fn lemma_layout(&self)
        requires
            self.wf(),
        ensures
            forall|n: int|
                0 <= n < self.entries().len() ==> laid_out(
                    self.ranges(),
                    #[trigger] self.entries()[n],
                    n,
                ),
    {
        let rects = self.ranges();
        assert forall|n: int| 0 <= n < self.entries().len() implies laid_out(
            rects,
            #[trigger] self.entries()[n],
            n,
        ) by {
            assert(entry_ok(rects, self.entries()[n], n));
            lemma_total_step(rects, n);
            lemma_rect_size(rects[n]);
            reveal(start_of);
        }
    }
}

/// The position at which the `n`-th rectangle starts.
#[verifier::opaque]
pub open spec fn start_of(rects: Seq<Range<Address>>, n: int) -> int {
    total_size(rects.take(n))
}

/// The `n`-th entry starts where the rectangles before it end, ends where
/// the next one starts, and is what `compile` attaches to the rectangle.
pub open spec fn laid_out(
    rects: Seq<Range<Address>>,
    entry: (Range<Address>, CompilationInfo),
    n: int,
) -> bool {
    &&& entry.0 == rects[n]
    &&& rect_ok(entry.0)
    &&& entry.1.spec_index() == start_of(rects, n)
    &&& entry.1.spec_index() + entry.1.spec_count() == start_of(rects, n + 1)
    &&& entry.1.spec_count() >= 1
    &&& entry.1.spec_count() == size_of_rect(entry.0)
    &&& entry.1.spec_ports() == ports_in(entry.0)
}

/// The target at `offset` within one compiled rectangle.
fn target_of(entry: &(Range<Address>, CompilationInfo), offset: usize) -> (a: Address)
    requires
        rect_ok(entry.0),
        entry.1.spec_count() == size_of_rect(entry.0),
        entry.1.spec_ports() == ports_in(entry.0),
        offset < entry.1.spec_count(),
    ensures
        (a.0 as int, a.1 as int) == target_in(entry.0, offset as int),
{
    proof {
        lemma_within_rect(entry.0, offset as int);
    }
    let (addr, port) = div_rem(offset, entry.1.port_count);
    let ip: u64 = entry.0.start.0 as u64 + addr as u64;
    (ip as u32, entry.0.start.1 + port as u16)
}

/// A position that falls into the `i`-th rectangle has its target there.
pub proof fn lemma_target_found(rects: Seq<Range<Address>>, i: int, k: int)
    requires
        0 <= i < rects.len(),
        forall|n: int| 0 <= n < rects.len() ==> rect_ok(#[trigger] rects[n]),
        total_size(rects.take(i)) <= k < total_size(rects.take(i + 1)),
    ensures
        target_at(rects, k) == target_in(rects[i], k - total_size(rects.take(i))),
    decreases rects.len(),
{
    let last = rects.len() - 1;
    assert(rects.take(last) =~= rects.drop_last());
    if i == last {
    } else {
        lemma_total_mono(rects, i + 1, last);
        assert(rects.drop_last().take(i) =~= rects.take(i));
        assert(rects.drop_last().take(i + 1) =~= rects.take(i + 1));
        lemma_target_found(rects.drop_last(), i, k);
    }
}

/// The `k`-th target of a rectangle lies in it, for `k` below its size.
pub proof fn lemma_within_rect(r: Range<Address>, k: int)
    requires
        rect_ok(r),
        0 <= k < size_of_rect(r),
    ensures
        r.start.0 <= target_in(r, k).0 <= r.end.0,
        r.start.1 <= target_in(r, k).1 <= r.end.1,
        0 <= k / ports_in(r) <= r.end.0 - r.start.0,
        0 <= k % ports_in(r) < ports_in(r),
{
    reveal(size_of_rect);
    let p = ports_in(r);
    let a = r.end.0 - r.start.0 + 1;
    assert(0 <= k / p < a && 0 <= k % p < p) by (nonlinear_arith)
        requires
            0 <= k < a * p,
            p > 0,
    ;
}

/// The rectangle into which position `k` falls.
pub open spec fn slot_of(rects: Seq<Range<Address>>, k: int) -> int
    decreases rects.len(),
{
    if rects.len() == 0 {
        0
    } else if k >= total_size(rects.drop_last()) {
        rects.len() - 1
    } else {
        slot_of(rects.drop_last(), k)
    }
}

/// Every position below the cardinality falls into one rectangle, past the
/// targets of the rectangles before it, and its target is the one at that
/// offset in the rectangle.
pub proof fn lemma_slot(rects: Seq<Range<Address>>, k: int)
    requires
        forall|n: int| 0 <= n < rects.len() ==> rect_ok(#[trigger] rects[n]),
        0 <= k < total_size(rects),
    ensures
        0 <= slot_of(rects, k) < rects.len(),
        total_size(rects.take(slot_of(rects, k))) <= k < total_size(
            rects.take(slot_of(rects, k) + 1),
        ),
        target_at(rects, k) == target_in(
            rects[slot_of(rects, k)],
            k - total_size(rects.take(slot_of(rects, k))),
        ),
    decreases rects.len(),
{
    let last = rects.len() - 1;
    assert(rects.take(last) =~= rects.drop_last());
    assert(rects.take(last + 1) =~= rects);
    if k >= total_size(rects.drop_last()) {
    } else {
        lemma_slot(rects.drop_last(), k);
        let i = slot_of(rects.drop_last(), k);
        assert(rects.drop_last().take(i) =~= rects.take(i));
        assert(rects.drop_last().take(i + 1) =~= rects.take(i + 1));
    }
}

/// Indexing stays inside the rectangles: the target at every position below
/// the cardinality lies in one of them.
pub proof fn lemma_index_in_image(rects: Seq<Range<Address>>, k: int)
    requires
        forall|n: int| 0 <= n < rects.len() ==> rect_ok(#[trigger] rects[n]),
        0 <= k < total_size(rects),
    ensures
        in_image(rects, target_at(rects, k)),
{
    lemma_slot(rects, k);
    let i = slot_of(rects, k);
    lemma_total_step(rects, i);
    lemma_within_rect(rects[i], k - total_size(rects.take(i)));
    assert(in_rect(rects[i], target_at(rects, k)));
}

/// The position at which indexing yields the target `a` of the `i`-th
/// rectangle.
pub open spec fn position_in(rects: Seq<Range<Address>>, i: int, a: (int, int)) -> int {
    total_size(rects.take(i)) + (a.0 - rects[i].start.0) * ports_in(rects[i]) + (a.1
        - rects[i].start.1)
}

/// Indexing reaches every target: each member of a rectangle is the target
/// at a position below the cardinality.
pub proof fn lemma_image_indexed(rects: Seq<Range<Address>>, i: int, a: (int, int))
    requires
        forall|n: int| 0 <= n < rects.len() ==> rect_ok(#[trigger] rects[n]),
        0 <= i < rects.len(),
        in_rect(rects[i], a),
    ensures
        0 <= position_in(rects, i, a) < total_size(rects),
        target_at(rects, position_in(rects, i, a)) == a,
{
    let r = rects[i];
    let p = ports_in(r);
    let x = a.0 - r.start.0;
    let y = a.1 - r.start.1;
    let n = r.end.0 - r.start.0 + 1;
    let off = x * p + y;
    reveal(size_of_rect);
    assert(0 <= off < n * p && off / p == x && off % p == y) by (nonlinear_arith)
        requires
            off == x * p + y,
            0 <= x < n,
            0 <= y < p,
    ;
    lemma_total_step(rects, i);
    lemma_total_mono(rects, 0, i);
    lemma_total_mono(rects, i + 1, rects.len() as int);
    assert(rects.take(rects.len() as int) =~= rects);
    lemma_target_found(rects, i, position_in(rects, i, a));
}

/// No target lies in two rectangles.
pub open spec fn disjoint(rects: Seq<Range<Address>>) -> bool {
    forall|i: int, j: int, a: (int, int)|
        0 <= i < rects.len() && 0 <= j < rects.len() && i != j && #[trigger] in_rect(rects[i], a)
            ==> !#[trigger] in_rect(rects[j], a)
}

/// Where no target lies in two rectangles, indexing visits each target once:
/// two positions with the same target are the same position.
pub proof fn lemma_index_injective(rects: Seq<Range<Address>>, k1: int, k2: int)
    requires
        forall|n: int| 0 <= n < rects.len() ==> rect_ok(#[trigger] rects[n]),
        disjoint(rects),
        0 <= k1 < total_size(rects),
        0 <= k2 < total_size(rects),
        target_at(rects, k1) == target_at(rects, k2),
    ensures
        k1 == k2,
{
    lemma_slot(rects, k1);
    lemma_slot(rects, k2);
    let i1 = slot_of(rects, k1);
    let i2 = slot_of(rects, k2);
    let o1 = k1 - total_size(rects.take(i1));
    let o2 = k2 - total_size(rects.take(i2));
    lemma_total_step(rects, i1);
    lemma_total_step(rects, i2);
    lemma_within_rect(rects[i1], o1);
    lemma_within_rect(rects[i2], o2);
    let a = target_at(rects, k1);
    assert(in_rect(rects[i1], a));
    assert(in_rect(rects[i2], a));
    assert(i1 == i2);
    let p = ports_in(rects[i1]);
    assert(o1 == o2) by (nonlinear_arith)
        requires
            p > 0,
            o1 / p == o2 / p,
            o1 % p == o2 % p,
    {
        assert(o1 == p * (o1 / p) + o1 % p);
        assert(o2 == p * (o2 / p) + o2 % p);
    }
}

/// The part of `cur` below the excluded range `x`: same ports, addresses up
/// to the one before `x` starts.
pub open spec fn head_before(cur: Range<Address>, x: Range<Ipv4>) -> Range<Address> {
    Range { start: cur.start, end: ((x.start - 1) as u32, cur.end.1) }
}

/// The part of `cur` above the excluded range `x`: same ports, addresses
/// from the one after `x` ends.
pub open spec fn tail_after(cur: Range<Address>, x: Range<Ipv4>) -> Range<Address> {
    Range { start: ((x.end + 1) as u32, cur.start.1), end: cur.end }
}

/// The sweep over scan ranges and excluded ranges, from the point where
/// `cur` is the scan range at hand, `s[i]` the next one and `e[j]` the
/// excluded range at hand: the ranges it emits from there on.
pub open spec fn sweep(
    s: Seq<Range<Address>>,
    e: Seq<Range<Ipv4>>,
    cur: Range<Address>,
    i: int,
    j: int,
) -> Seq<Range<Address>>
    decreases 2 * (s.len() - i) + 1, e.len() - j, cur.end.0 - cur.start.0,
{
    if i < 0 || i > s.len() {
        seq![cur]
    } else if j < 0 || j >= e.len() {
        seq![cur] + s.subrange(i, s.len() as int)
    } else {
        let x = e[j];
        if cur.end.0 < x.start {
            seq![cur] + sweep_on(s, e, i, j)
        } else if cur.start.0 > x.end {
            sweep(s, e, cur, i, j + 1)
        } else if cur.start.0 < x.start && cur.end.0 > x.end {
            seq![head_before(cur, x)] + sweep(s, e, tail_after(cur, x), i, j)
        } else if cur.start.0 < x.start {
            seq![head_before(cur, x)] + sweep_on(s, e, i, j)
        } else if cur.end.0 > x.end {
            sweep(s, e, tail_after(cur, x), i, j)
        } else {
            sweep_on(s, e, i, j)
        }
    }
}

/// The sweep once the scan range at hand is done: on with `s[i]`, if there
/// is one.
pub open spec fn sweep_on(s: Seq<Range<Address>>, e: Seq<Range<Ipv4>>, i: int, j: int) -> Seq<
    Range<Address>,
>
    decreases 2 * (s.len() - i), 0int, 0int,
{
    if 0 <= i < s.len() && 0 <= j < e.len() {
        sweep(s, e, s[i], i + 1, j)
    } else {
        Seq::empty()
    }
}

/// The scan ranges `s` without the addresses of the excluded ranges `e`, on
/// every port: the two-pointer sweep over both lists. Without excluded
/// ranges the scan ranges stay as they are.
pub open spec fn excluded_from(s: Seq<Range<Address>>, e: Seq<Range<Ipv4>>) -> Seq<
    Range<Address>,
> {
    if e.len() == 0 {
        s
    } else {
        sweep_on(s, e, 0, 0)
    }
}

impl Ranges<Address, (), ()> {
    /// Removes the addresses of `exclude_ranges`, on every port. Both lists
    /// are meant to be in ascending order without overlap: see
    /// `lemma_exclusion` for what the result then holds.
    pub fn exclude(&mut self, exclude_ranges: &Ipv4Ranges)
        ensures
            final(self).ranges() == excluded_from(old(self).ranges(), exclude_ranges.ranges()),
    {
        let ghost s = self.ranges();
        let ghost e = exclude_ranges.ranges();
        if exclude_ranges.inner.len() == 0 || self.inner.len() == 0 {
            assert(self.ranges() =~= excluded_from(s, e));
            return ;
        }
        let scan_len = self.inner.len();
        let excl_len = exclude_ranges.inner.len();
        let mut out: Vec<(Range<Address>, ())> = Vec::new();
        let mut start: Address = self.inner[0].0.start;
        let mut end: Address = self.inner[0].0.end;
        let mut i: usize = 1;
        let mut j: usize = 0;
        let mut exhausted = false;
        assert(s[0] == self.inner@[0].0);
        while !exhausted && j < excl_len
            invariant
                s == self.ranges(),
                e == exclude_ranges.ranges(),
                scan_len == self.inner@.len(),
                excl_len == exclude_ranges.inner@.len(),
                1 <= i <= scan_len,
                j <= excl_len,
                !exhausted ==> emitted(out@) + sweep(s, e, Range { start, end }, i as int, j as int)
                    == sweep_on(s, e, 0, 0),
                exhausted ==> emitted(out@) == sweep_on(s, e, 0, 0),
            decreases
                    if exhausted {
                        0
                    } else {
                        scan_len - i + 1
                    },
                    excl_len - j,
                    end.0 - start.0,
        {
            let ghost cur = Range { start, end };
            let ghost before = emitted(out@);
            let ghost x = e[j as int];
            let ghost remaining = sweep(s, e, cur, i as int, j as int);
            let ghost step: Seq<Range<Address>>;
            let x_start: Ipv4 = exclude_ranges.inner[j].0.start;
            let x_end: Ipv4 = exclude_ranges.inner[j].0.end;
            assert(x == exclude_ranges.inner@[j as int].0);
            let mut advance = false;
            if end.0 < x_start {
                out.push((Range { start, end }, ()));
                advance = true;
                proof {
                    step = seq![cur];
                }
            } else if start.0 > x_end {
                j += 1;
                proof {
                    step = Seq::empty();
                }
            } else if start.0 < x_start && end.0 > x_end {
                out.push((Range { start, end: (x_start - 1, end.1) }, ()));
                start = (x_end + 1, start.1);
                proof {
                    step = seq![head_before(cur, x)];
                }
            } else if start.0 < x_start {
                out.push((Range { start, end: (x_start - 1, end.1) }, ()));
                advance = true;
                proof {
                    step = seq![head_before(cur, x)];
                }
            } else if end.0 > x_end {
                start = (x_end + 1, start.1);
                proof {
                    step = Seq::empty();
                }
            } else {
                advance = true;
                proof {
                    step = Seq::empty();
                }
            }
            assert(emitted(out@) =~= before + step);
            if advance {
                assert(remaining == step + sweep_on(s, e, i as int, j as int));
                if i < scan_len {
                    start = self.inner[i].0.start;
                    end = self.inner[i].0.end;
                    assert(s[i as int] == self.inner@[i as int].0);
                    i += 1;
                    assert((before + step) + sweep(s, e, Range { start, end }, i as int, j as int)
                        =~= before + remaining);
                } else {
                    exhausted = true;
                    assert(before + step =~= before + remaining);
                }
            } else {
                assert(remaining == step + sweep(s, e, Range { start, end }, i as int, j as int));
                assert((before + step) + sweep(s, e, Range { start, end }, i as int, j as int)
                    =~= before + remaining);
            }
        }
        if !exhausted {
            let ghost before = emitted(out@);
            out.push((Range { start, end }, ()));
            assert(emitted(out@) =~= before + seq![Range { start, end }]);
            while i < scan_len
                invariant
                    s == self.ranges(),
                    scan_len == self.inner@.len(),
                    1 <= i <= scan_len,
                    emitted(out@) + s.subrange(i as int, s.len() as int) == sweep_on(s, e, 0, 0),
                decreases scan_len - i,
            {
                let ghost before = emitted(out@);
                let next_start = self.inner[i].0.start;
                let next_end = self.inner[i].0.end;
                assert(s[i as int] == self.inner@[i as int].0);
                out.push((Range { start: next_start, end: next_end }, ()));
                assert(emitted(out@) =~= before + seq![s[i as int]]);
                assert(s.subrange(i as int, s.len() as int) =~= seq![s[i as int]] + s.subrange(
                    i as int + 1,
                    s.len() as int,
                ));
                i += 1;
            }
            assert(s.subrange(i as int, s.len() as int) =~= Seq::<Range<Address>>::empty());
        }
        self.inner = out;
        assert(self.ranges() =~= emitted(out@));
    }
}

/// The ranges of a list of entries.
pub open spec fn emitted(out: Seq<(Range<Address>, ())>) -> Seq<Range<Address>> {
    Seq::new(out.len(), |n: int| out[n].0)
}

/// Whether some excluded range holds the address `ip`.
pub open spec fn ip_excluded(e: Seq<Range<Ipv4>>, ip: int) -> bool {
    exists|j: int| 0 <= j < e.len() && (#[trigger] e[j]).start <= ip <= e[j].end
}

/// Scan ranges in ascending order of address without overlap, none empty.
pub open spec fn ordered_rects(s: Seq<Range<Address>>) -> bool {
    &&& forall|i: int| 0 <= i < s.len() ==> rect_ok(#[trigger] s[i])
    &&& forall|i: int, j: int|
        0 <= i < j < s.len() ==> (#[trigger] s[i]).end.0 < (#[trigger] s[j]).start.0
}

/// Excluded ranges in ascending order without overlap, none empty.
pub open spec fn ordered_ips(e: Seq<Range<Ipv4>>) -> bool {
    &&& forall|j: int| 0 <= j < e.len() ==> (#[trigger] e[j]).start <= e[j].end
    &&& forall|i: int, j: int|
        0 <= i < j < e.len() ==> (#[trigger] e[i]).end < (#[trigger] e[j]).start
}

proof fn lemma_image_cons(c: Range<Address>, rest: Seq<Range<Address>>, a: (int, int))
    ensures
        in_image(seq![c] + rest, a) <==> in_rect(c, a) || in_image(rest, a),
{
    let all = seq![c] + rest;
    if in_image(all, a) {
        let i = choose|i: int| 0 <= i < all.len() && in_rect(#[trigger] all[i], a);
        if i > 0 {
            assert(all[i] == rest[i - 1]);
        }
    }
    if in_rect(c, a) {
        assert(all[0] == c);
    }
    if in_image(rest, a) {
        let i = choose|i: int| 0 <= i < rest.len() && in_rect(#[trigger] rest[i], a);
        assert(all[i + 1] == rest[i]);
    }
}

proof fn lemma_image_from(s: Seq<Range<Address>>, i: int, a: (int, int))
    requires
        0 <= i < s.len(),
    ensures
        in_image(s.subrange(i, s.len() as int), a) <==> in_rect(s[i], a) || in_image(
            s.subrange(i + 1, s.len() as int),
            a,
        ),
{
    assert(s.subrange(i, s.len() as int) =~= seq![s[i]] + s.subrange(i + 1, s.len() as int));
    lemma_image_cons(s[i], s.subrange(i + 1, s.len() as int), a);
}

proof fn lemma_image_above(s: Seq<Range<Address>>, i: int, a: (int, int))
    requires
        ordered_rects(s),
        0 <= i < s.len(),
        in_image(s.subrange(i, s.len() as int), a),
    ensures
        s[i].start.0 <= a.0,
{
    let t = s.subrange(i, s.len() as int);
    let n = choose|n: int| 0 <= n < t.len() && in_rect(#[trigger] t[n], a);
    assert(t[n] == s[i + n]);
    if n > 0 {
        assert(s[i].end.0 < s[i + n].start.0);
    }
}

/// What the sweep emits from a point on: the targets of the scan range at
/// hand and of those still to come whose address no excluded range holds.
proof fn lemma_sweep(
    s: Seq<Range<Address>>,
    e: Seq<Range<Ipv4>>,
    cur: Range<Address>,
    i: int,
    j: int,
    a: (int, int),
)
    requires
        ordered_rects(s),
        ordered_ips(e),
        0 <= i <= s.len(),
        0 <= j <= e.len(),
        cur.start.0 <= cur.end.0,
        i < s.len() ==> cur.end.0 < s[i].start.0,
        forall|n: int| 0 <= n < j ==> (#[trigger] e[n]).end < cur.start.0,
    ensures
        in_image(sweep(s, e, cur, i, j), a) <==> (in_rect(cur, a) || in_image(
            s.subrange(i, s.len() as int),
            a,
        )) && !ip_excluded(e, a.0),
    decreases 2 * (s.len() - i) + 1, e.len() - j, cur.end.0 - cur.start.0,
{
    let later = s.subrange(i, s.len() as int);
    if i < s.len() && in_image(later, a) {
        lemma_image_above(s, i, a);
    }
    if j >= e.len() {
        lemma_image_cons(cur, later, a);
        if ip_excluded(e, a.0) {
            let n = choose|n: int| 0 <= n < e.len() && (#[trigger] e[n]).start <= a.0 <= e[n].end;
            assert(e[n].end < cur.start.0);
        }
    } else {
        let x = e[j];
        assert(x.start <= x.end);
        assert forall|n: int| j < n < e.len() implies x.end < (#[trigger] e[n]).start by {
            assert(e[j].end < e[n].start);
        }
        // Whether an address from `cur.start` on is excluded is decided by
        // `x` and the ranges after it.
        if ip_excluded(e, a.0) && a.0 >= cur.start.0 {
            let n = choose|n: int| 0 <= n < e.len() && (#[trigger] e[n]).start <= a.0 <= e[n].end;
            assert(n >= j);
        }
        if x.start <= a.0 <= x.end {
            assert(ip_excluded(e, a.0));
        }
        if cur.end.0 < x.start {
            lemma_sweep_on(s, e, i, j, cur, a);
            lemma_image_cons(cur, sweep_on(s, e, i, j), a);
        } else if cur.start.0 > x.end {
            lemma_sweep(s, e, cur, i, j + 1, a);
        } else if cur.start.0 < x.start && cur.end.0 > x.end {
            let tail = tail_after(cur, x);
            lemma_sweep(s, e, tail, i, j, a);
            lemma_image_cons(head_before(cur, x), sweep(s, e, tail, i, j), a);
        } else if cur.start.0 < x.start {
            lemma_sweep_on(s, e, i, j, cur, a);
            lemma_image_cons(head_before(cur, x), sweep_on(s, e, i, j), a);
        } else if cur.end.0 > x.end {
            let tail = tail_after(cur, x);
            lemma_sweep(s, e, tail, i, j, a);
        } else {
            lemma_sweep_on(s, e, i, j, cur, a);
        }
    }
}

proof fn lemma_sweep_on(
    s: Seq<Range<Address>>,
    e: Seq<Range<Ipv4>>,
    i: int,
    j: int,
    prev: Range<Address>,
    a: (int, int),
)
    requires
        ordered_rects(s),
        ordered_ips(e),
        0 <= i <= s.len(),
        0 <= j < e.len(),
        prev.start.0 <= prev.end.0,
        i < s.len() ==> prev.end.0 < s[i].start.0,
        forall|n: int| 0 <= n < j ==> (#[trigger] e[n]).end < prev.start.0,
    ensures
        in_image(sweep_on(s, e, i, j), a) <==> in_image(s.subrange(i, s.len() as int), a)
            && !ip_excluded(e, a.0),
    decreases 2 * (s.len() - i), 0int, 0int,
{
    if i < s.len() {
        assert(rect_ok(s[i]));
        if i + 1 < s.len() {
            assert(s[i].end.0 < s[i + 1].start.0);
        }
        lemma_sweep(s, e, s[i], i + 1, j, a);
        lemma_image_from(s, i, a);
    } else {
        assert(s.subrange(i, s.len() as int) =~= Seq::<Range<Address>>::empty());
    }
}

/// Exclusion takes away what is excluded and nothing else: for scan ranges
/// and excluded ranges in ascending order without overlap, a target is left
/// exactly if it was there and no excluded range holds its address.
pub proof fn lemma_exclusion(s: Seq<Range<Address>>, e: Seq<Range<Ipv4>>, a: (int, int))
    requires
        ordered_rects(s),
        ordered_ips(e),
    ensures
        in_image(excluded_from(s, e), a) <==> in_image(s, a) && !ip_excluded(e, a.0),
{
    assert(s.subrange(0, s.len() as int) =~= s);
    if e.len() > 0 && s.len() > 0 {
        assert(rect_ok(s[0]));
        if 1 < s.len() {
            assert(s[0].end.0 < s[1].start.0);
        }
        lemma_sweep(s, e, s[0], 1, 0, a);
        lemma_image_from(s, 0, a);
    }
}

/// No excluded range runs backwards.
pub open spec fn ips_ok(e: Seq<Range<Ipv4>>) -> bool {
    forall|j: int| 0 <= j < e.len() ==> (#[trigger] e[j]).start <= e[j].end
}

/// Every range of the list starts at `lo` or after it.
pub open spec fn starts_from(rects: Seq<Range<Address>>, lo: int) -> bool {
    forall|k: int| 0 <= k < rects.len() ==> lo <= (#[trigger] rects[k]).start.0
}

proof fn lemma_ordered_cons(c: Range<Address>, rest: Seq<Range<Address>>)
    requires
        rect_ok(c),
        ordered_rects(rest),
        starts_from(rest, c.end.0 + 1),
    ensures
        ordered_rects(seq![c] + rest),
        starts_from(seq![c] + rest, c.start.0 as int),
{
    let all = seq![c] + rest;
    assert forall|i: int| 0 <= i < all.len() implies rect_ok(#[trigger] all[i]) && c.start.0
        <= all[i].start.0 by {
        if i > 0 {
            assert(all[i] == rest[i - 1]);
        }
    }
    assert forall|i: int, j: int| 0 <= i < j < all.len() implies (#[trigger] all[i]).end.0 < (
    #[trigger] all[j]).start.0 by {
        assert(all[j] == rest[j - 1]);
        if i > 0 {
            assert(all[i] == rest[i - 1]);
        }
    }
}

proof fn lemma_ordered_suffix(s: Seq<Range<Address>>, i: int)
    requires
        ordered_rects(s),
        0 <= i <= s.len(),
    ensures
        ordered_rects(s.subrange(i, s.len() as int)),
        i < s.len() ==> starts_from(s.subrange(i, s.len() as int), s[i].start.0 as int),
{
    let t = s.subrange(i, s.len() as int);
    assert forall|k: int| 0 <= k < t.len() implies rect_ok(#[trigger] t[k]) by {
        assert(t[k] == s[i + k]);
    }
    assert forall|a: int, b: int| 0 <= a < b < t.len() implies (#[trigger] t[a]).end.0 < (
    #[trigger] t[b]).start.0 by {
        assert(t[a] == s[i + a] && t[b] == s[i + b]);
    }
    if i < s.len() {
        assert forall|k: int| 0 <= k < t.len() implies s[i].start.0 <= (#[trigger] t[k]).start.0 by {
            assert(t[k] == s[i + k]);
            if k > 0 {
                assert(s[i].end.0 < s[i + k].start.0);
                assert(rect_ok(s[i]));
            }
        }
    }
}

proof fn lemma_starts_later(rects: Seq<Range<Address>>, lo: int, lower: int)
    requires
        starts_from(rects, lo),
        lower <= lo,
    ensures
        starts_from(rects, lower),
{
}

proof fn lemma_sweep_ordered(
    s: Seq<Range<Address>>,
    e: Seq<Range<Ipv4>>,
    cur: Range<Address>,
    i: int,
    j: int,
)
    requires
        ordered_rects(s),
        ips_ok(e),
        0 <= i <= s.len(),
        0 <= j <= e.len(),
        rect_ok(cur),
        i < s.len() ==> cur.end.0 < s[i].start.0,
    ensures
        ordered_rects(sweep(s, e, cur, i, j)),
        starts_from(sweep(s, e, cur, i, j), cur.start.0 as int),
    decreases 2 * (s.len() - i) + 1, e.len() - j, cur.end.0 - cur.start.0,
{
    if j >= e.len() {
        let later = s.subrange(i, s.len() as int);
        lemma_ordered_suffix(s, i);
        if i < s.len() {
            lemma_starts_later(later, s[i].start.0 as int, cur.end.0 + 1);
        }
        lemma_ordered_cons(cur, later);
    } else {
        let x = e[j];
        assert(x.start <= x.end);
        if cur.end.0 < x.start {
            lemma_sweep_on_ordered(s, e, i, j, cur.end.0 + 1);
            lemma_ordered_cons(cur, sweep_on(s, e, i, j));
        } else if cur.start.0 > x.end {
            lemma_sweep_ordered(s, e, cur, i, j + 1);
        } else if cur.start.0 < x.start && cur.end.0 > x.end {
            let head = head_before(cur, x);
            let tail = tail_after(cur, x);
            lemma_sweep_ordered(s, e, tail, i, j);
            lemma_starts_later(sweep(s, e, tail, i, j), tail.start.0 as int, head.end.0 + 1);
            lemma_ordered_cons(head, sweep(s, e, tail, i, j));
        } else if cur.start.0 < x.start {
            let head = head_before(cur, x);
            lemma_sweep_on_ordered(s, e, i, j, cur.end.0 + 1);
            lemma_starts_later(sweep_on(s, e, i, j), cur.end.0 + 1, head.end.0 + 1);
            lemma_ordered_cons(head, sweep_on(s, e, i, j));
        } else if cur.end.0 > x.end {
            let tail = tail_after(cur, x);
            lemma_sweep_ordered(s, e, tail, i, j);
            lemma_starts_later(sweep(s, e, tail, i, j), tail.start.0 as int, cur.start.0 as int);
        } else {
            lemma_sweep_on_ordered(s, e, i, j, cur.end.0 + 1);
            lemma_starts_later(sweep_on(s, e, i, j), cur.end.0 + 1, cur.start.0 as int);
        }
    }
}

proof fn lemma_sweep_on_ordered(
    s: Seq<Range<Address>>,
    e: Seq<Range<Ipv4>>,
    i: int,
    j: int,
    lo: int,
)
    requires
        ordered_rects(s),
        ips_ok(e),
        0 <= i <= s.len(),
        0 <= j < e.len(),
        i < s.len() ==> lo <= s[i].start.0,
    ensures
        ordered_rects(sweep_on(s, e, i, j)),
        starts_from(sweep_on(s, e, i, j), lo),
    decreases 2 * (s.len() - i), 0int, 0int,
{
    if i < s.len() {
        assert(rect_ok(s[i]));
        if i + 1 < s.len() {
            assert(s[i].end.0 < s[i + 1].start.0);
        }
        lemma_sweep_ordered(s, e, s[i], i + 1, j);
        lemma_starts_later(sweep(s, e, s[i], i + 1, j), s[i].start.0 as int, lo);
    }
}

/// Exclusion keeps the order: of scan ranges in ascending order without
/// overlap, none empty, it leaves ranges in ascending order without
/// overlap, none empty, whatever the order of the excluded ranges.
pub proof fn lemma_exclusion_ordered(s: Seq<Range<Address>>, e: Seq<Range<Ipv4>>)
    requires
        ordered_rects(s),
        ips_ok(e),
    ensures
        ordered_rects(excluded_from(s, e)),
{
    if e.len() > 0 {
        lemma_sweep_on_ordered(s, e, 0, 0, 0);
    }
}

} // verus!
