//! The printer: turns the count of completed frames into a rate, every so
//! often.

use vstd::prelude::*;

verus! {

/// A rate of packets per second, in the unit in which it is printed.
#[derive(Clone, Copy, Debug, PartialEq, Eq, Structural)]
pub enum Throughput {
    /// Millions per second: above ten million.
    Mpps(u64),
    /// Thousands per second: above ten thousand.
    Kpps(u64),
    Pps(u64),
}

/// `n / d` rounded to the nearest whole number, a half rounded up.
pub open spec fn rounded(n: int, d: int) -> int {
    (2 * n + d) / (2 * d)
}

/// A whole number as 64 bits, the largest where it does not fit.
pub open spec fn clamped(n: int) -> u64 {
    if n > u64::MAX {
        u64::MAX
    } else {
        n as u64
    }
}

/// The rate of `delta` packets in `nanos` nanoseconds. In no time at all,
/// any packet at all is more than can be counted.
pub open spec fn rate_of(delta: int, nanos: int) -> Throughput {
    if nanos == 0 {
        if delta > 0 {
            Throughput::Mpps(u64::MAX)
        } else {
            Throughput::Pps(0)
        }
    } else if delta * 100 > nanos {
        Throughput::Mpps(clamped(rounded(delta * 1000, nanos)))
    } else if delta * 100_000 > nanos {
        Throughput::Kpps(clamped(rounded(delta * 1_000_000, nanos)))
    } else {
        Throughput::Pps(clamped(rounded(delta * 1_000_000_000, nanos)))
    }
}

fn round_div(n: u128, d: u128) -> (r: u64)
    requires
        0 < d <= u64::MAX,
        2 * n + d <= u128::MAX,
    ensures
        r == clamped(rounded(n as int, d as int)),
{
    let q = (2 * n + d) / (2 * d);
    if q > u64::MAX as u128 {
        u64::MAX
    } else {
        q as u64
    }
}

/// Reports the throughput of a session.
pub struct Printer {
    print_every: u64,
    last_comp: usize,
}

impl Printer {
    /// The nanoseconds between two reports.
    pub closed spec fn every(&self) -> u64 {
        self.print_every
    }

    /// The count at the last report.
    pub closed spec fn last(&self) -> usize {
        self.last_comp
    }

    /// A printer that reports every `print_every_nanos` nanoseconds.
    pub fn new(print_every_nanos: u64) -> (p: Self)
        ensures
            p.every() == print_every_nanos,
            p.last() == 0,
    {
        Printer { print_every: print_every_nanos, last_comp: 0 }
    }

    /// Given the nanoseconds since the last report and the count of
    /// completed frames now: nothing before the time is up; after that the
    /// rate since the last report, which this one then becomes.
    pub fn tick(&mut self, elapsed_nanos: u64, completed: usize) -> (r: Option<Throughput>)
        ensures
            final(self).every() == old(self).every(),
            elapsed_nanos < old(self).every() ==> r.is_none() && final(self).last() == old(
                self,
            ).last(),
            elapsed_nanos >= old(self).every() ==> final(self).last() == completed && r == Some(
                rate_of(
                    if completed >= old(self).last() {
                        completed - old(self).last()
                    } else {
                        0
                    },
                    elapsed_nanos as int,
                ),
            ),
    {
        if elapsed_nanos < self.print_every {
            return None;
        }
        let delta: u128 = if completed >= self.last_comp {
            (completed - self.last_comp) as u128
        } else {
            0
        };
        let nanos: u128 = elapsed_nanos as u128;
        self.last_comp = completed;
        if nanos == 0 {
            if delta > 0 {
                return Some(Throughput::Mpps(u64::MAX));
            } else {
                return Some(Throughput::Pps(0));
            }
        }
        if delta * 100 > nanos {
            Some(Throughput::Mpps(round_div(delta * 1000, nanos)))
        } else if delta * 100_000 > nanos {
            Some(Throughput::Kpps(round_div(delta * 1_000_000, nanos)))
        } else {
            Some(Throughput::Pps(round_div(delta * 1_000_000_000, nanos)))
        }
    }
}

} // verus!
