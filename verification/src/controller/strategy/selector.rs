//! The two arms of the epsilon-greedy choice: the default strategy, and a
//! strategy drawn at random.

use crate::controller::strategy::ip::{slash_n_ranges, SlashN};
use crate::controller::strategy::port::{AllPortsNonPrivileged, RangedPorts};
use crate::controller::strategy::{
    combine, product, CombinedStrategy, Strategy, StrategyError, StrategyTransformer,
};
use crate::net::range::{Address, AddressRanges};
use core::ops::Range;
use vstd::prelude::*;

verus! {

/// `rand::random` for 32 bits: any value.
#[verifier::external_body]
fn random_bits() -> u32 {
    rand::random::<u32>()
}

/// `rand::random_range` over `lo..=hi`, which is not empty: some value of
/// the range.
#[verifier::external_body]
fn random_between(lo: u16, hi: u16) -> (r: u16)
    requires
        lo <= hi,
    ensures
        lo <= r <= hi,
{
    rand::random_range(lo..=hi)
}

/// What the selector picked.
#[derive(Debug)]
pub enum Selected {
    /// The default: every address, every port from 1024 on.
    Exploit(CombinedStrategy<SlashN, AllPortsNonPrivileged>),
    /// A block of addresses and a range of ports from 1024 on, both drawn at
    /// random.
    Explore(CombinedStrategy<SlashN, RangedPorts>),
}

/// The ranges of a selected strategy: the block of its addresses paired
/// with the range of its ports.
pub open spec fn selected_ranges(s: Selected) -> Result<Seq<Range<Address>>, StrategyError> {
    let (block, ports) = match s {
        Selected::Exploit(c) => (c.0, Range { start: 1024u16, end: 65535u16 }),
        Selected::Explore(c) => (c.0, Range { start: c.1.0, end: c.1.1 }),
    };
    match slash_n_ranges(block) {
        Err(e) => Err(e),
        Ok(addresses) => Ok(product(addresses, seq![ports])),
    }
}

impl Strategy for Selected {
    type Output = Address;

    fn generate_ranges(&self) -> (r: Result<AddressRanges, StrategyError>)
        ensures
            match r {
                Ok(ranges) => selected_ranges(*self) == Ok::<Seq<Range<Address>>, StrategyError>(
                    ranges.ranges(),
                ),
                Err(e) => selected_ranges(*self) == Err::<Seq<Range<Address>>, StrategyError>(e),
            },
    {
        let (addresses, ports) = match self {
            Selected::Exploit(c) => (c.0.generate_ranges(), c.1.generate_ranges()),
            Selected::Explore(c) => (c.0.generate_ranges(), c.1.generate_ranges()),
        };
        match (addresses, ports) {
            (Ok(addresses), Ok(ports)) => Ok(combine(&addresses, &ports)),
            (Err(e), _) => Err(e),
            (_, Err(e)) => Err(e),
        }
    }
}

/// The default strategy: `0.0.0.0/0` on every port from 1024 on.
pub fn select_exploit() -> (s: Selected)
    ensures
        s == Selected::Exploit(CombinedStrategy(SlashN(0, 0), AllPortsNonPrivileged)),
{
    Selected::Exploit(SlashN::new(0, 0).combine_with(AllPortsNonPrivileged))
}

/// The strategy for the given draws: the block of `block` bits around `ip`,
/// on the ports from `port_start` to `port_end`.
pub fn explore_with(ip: u32, block: u8, port_start: u16, port_end: u16) -> (s: Selected)
    ensures
        s == Selected::Explore(
            CombinedStrategy(SlashN(ip, block), RangedPorts(port_start, port_end)),
        ),
{
    Selected::Explore(SlashN::new(ip, block).combine_with(RangedPorts::new(port_start, port_end)))
}

/// A strategy drawn at random: a block of any size around any address, on a
/// range of ports from 1024 on that is not empty.
pub fn select_explore() -> (s: Selected)
    ensures
        s matches Selected::Explore(c) && c.0.1 <= 32 && 1024 <= c.1.0 <= c.1.1,
{
    let ip = random_bits();
    let block = random_between(0, 32);
    let port_start = random_between(1024, 65535);
    let port_end = random_between(port_start, 65535);
    explore_with(ip, block as u8, port_start, port_end)
}

} // verus!
