//! Strategies: descriptions of what to scan, as lists of ranges not yet
//! laid out.

use crate::net::range::Ranges;
use core::ops::Range;
use vstd::prelude::*;

pub mod ip;
pub mod port;
pub mod selector;

verus! {

/// Why a strategy yields no ranges.
#[derive(Clone, Copy, Debug, PartialEq, Eq, Structural)]
pub enum StrategyError {
    /// A prefix length above 32.
    CidrOutOfRange,
}

/// A description of what to scan. What an implementation yields is its own
/// affair.
pub trait Strategy {
    type Output;

    /// The ranges of the strategy, or why it has none.
    fn generate_ranges(&self) -> Result<Ranges<Self::Output>, StrategyError>;
}

/// The product of two strategies: every range of the first paired with
/// every range of the second.
#[derive(Debug)]
pub struct CombinedStrategy<S1: Strategy, S2: Strategy>(pub S1, pub S2);

/// Pairing strategies.
pub trait StrategyTransformer: Strategy + Sized {
    /// This strategy paired with `other`.
    fn combine_with<O: Strategy>(self, other: O) -> (c: CombinedStrategy<Self, O>)
        ensures
            c.0 == self,
            c.1 == other,
    {
        CombinedStrategy(self, other)
    }
}

impl<T: Strategy> StrategyTransformer for T {

}

/// The `n`-th range of a product: the ranges of `first` run fastest.
pub open spec fn product_at<A, B>(first: Seq<Range<A>>, second: Seq<Range<B>>, n: int) -> Range<
    (A, B),
> {
    let i = n % (first.len() as int);
    let j = n / (first.len() as int);
    Range { start: (first[i].start, second[j].start), end: (first[i].end, second[j].end) }
}

/// The product of two lists of ranges.
pub open spec fn product<A, B>(first: Seq<Range<A>>, second: Seq<Range<B>>) -> Seq<Range<(A, B)>> {
    Seq::new(first.len() * second.len(), |n: int| product_at(first, second, n))
}

/// The product of two lists of ranges: every range of `first` paired with
/// every range of `second`, those of `first` running fastest.
pub fn combine<A: Copy, B: Copy>(first: &Ranges<A>, second: &Ranges<B>) -> (r: Ranges<(A, B)>)
    ensures
        r.ranges() == product(first.ranges(), second.ranges()),
{
    let ghost xs = first.ranges();
    let ghost ys = second.ranges();
    let s1_len = first.len();
    let s2_len = second.len();
    let mut ranges: Vec<Range<(A, B)>> = Vec::new();
    let mut j: usize = 0;
    while j < s2_len
        invariant
            j <= s2_len,
            s1_len == xs.len(),
            s2_len == ys.len(),
            xs == first.ranges(),
            ys == second.ranges(),
            ranges@.len() == j * xs.len(),
            forall|n: int| 0 <= n < ranges@.len() ==> ranges@[n] == product_at(xs, ys, n),
        decreases s2_len - j,
    {
        let mut i: usize = 0;
        while i < s1_len
            invariant
                j < s2_len,
                i <= s1_len,
                s1_len == xs.len(),
                s2_len == ys.len(),
                xs == first.ranges(),
                ys == second.ranges(),
                ranges@.len() == j * xs.len() + i,
                forall|n: int| 0 <= n < ranges@.len() ==> ranges@[n] == product_at(xs, ys, n),
            decreases s1_len - i,
        {
            let s1_range = first.get(i);
            let s2_range = second.get(j);
            proof {
                let n = j * xs.len() + i;
                let len = xs.len() as int;
                assert(n % len == i && n / len == j) by (nonlinear_arith)
                    requires
                        n == j * len + i,
                        0 <= i < len,
                        0 <= j,
                ;
            }
            ranges.push(
                Range {
                    start: (s1_range.start, s2_range.start),
                    end: (s1_range.end, s2_range.end),
                },
            );
            i += 1;
        }
        proof {
            assert((j + 1) * xs.len() == j * xs.len() + xs.len()) by (nonlinear_arith);
        }
        j += 1;
    }
    assert(ranges@.len() == xs.len() * ys.len()) by (nonlinear_arith)
        requires
            ranges@.len() == j * xs.len(),
            j == ys.len(),
    ;
    assert(ranges@ =~= product(xs, ys));
    Ranges::from_vec(ranges)
}

/// Whether `r` is something that the strategy `s` may yield: what its
/// `generate_ranges` promises of its result holds of `r`.
pub open spec fn yields<S: Strategy>(s: &S, r: Result<Ranges<S::Output>, StrategyError>) -> bool {
    call_ensures(S::generate_ranges, (s,), r)
}

impl<S1: Strategy, S2: Strategy> Strategy for CombinedStrategy<S1, S2> where
    S1::Output: Copy,
    S2::Output: Copy,
 {
    type Output = (S1::Output, S2::Output);

    /// The product of what both strategies yield; the error of the first
    /// that yields one. The second is not asked where the first fails.
    fn generate_ranges(&self) -> (r: Result<Ranges<Self::Output>, StrategyError>)
        ensures
            match r {
                Ok(ranges) => exists|first: Ranges<S1::Output>, second: Ranges<S2::Output>|
                    #![trigger yields(&self.0, Ok(first)), yields(&self.1, Ok(second))]
                    yields(&self.0, Ok(first)) && yields(&self.1, Ok(second)) && ranges.ranges()
                        == product(first.ranges(), second.ranges()),
                Err(e) => yields(&self.0, Err(e)) || exists|first: Ranges<S1::Output>|
                    #![trigger yields(&self.0, Ok(first))]
                    yields(&self.0, Ok(first)) && yields(&self.1, Err(e)),
            },
    {
        let asked = self.0.generate_ranges();
        assert(yields(&self.0, asked));
        let first = match asked {
            Ok(ranges) => ranges,
            Err(e) => {
                return Err(e);
            },
        };
        let asked = self.1.generate_ranges();
        assert(yields(&self.1, asked));
        let second = match asked {
            Ok(ranges) => ranges,
            Err(e) => {
                assert(yields(&self.0, Ok(first)));
                return Err(e);
            },
        };
        let ranges = combine(&first, &second);
        assert(yields(&self.0, Ok(first)) && yields(&self.1, Ok(second)));
        Ok(ranges)
    }
}

} // verus!
