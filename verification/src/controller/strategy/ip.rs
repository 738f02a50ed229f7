//! Strategies over addresses.

use crate::controller::strategy::{Strategy, StrategyError};
use crate::net::ip::{block_of_prefix, cidr_block};
use crate::net::range::{Ipv4Ranges, Ranges};
use crate::net::tcp::Ipv4;
use core::ops::Range;
use vstd::prelude::*;

verus! {

/// The block of addresses that share the first `n` bits of an address:
/// `a.b.c.d/n`.
#[derive(Clone, Copy, Debug)]
pub struct SlashN(pub Ipv4, pub u8);

impl SlashN {
    pub fn new(ip: Ipv4, block: u8) -> (s: Self)
        ensures
            s.0 == ip,
            s.1 == block,
    {
        SlashN(ip, block)
    }
}

/// The ranges of a block: the one range from its first address to its
/// last. There is no block with a prefix of more than 32 bits.
pub open spec fn slash_n_ranges(s: SlashN) -> Result<Seq<Range<Ipv4>>, StrategyError> {
    if s.1 > 32 {
        Err(StrategyError::CidrOutOfRange)
    } else {
        Ok(seq![block_of_prefix(s.0, s.1)])
    }
}

impl Strategy for SlashN {
    type Output = Ipv4;

    fn generate_ranges(&self) -> (r: Result<Ipv4Ranges, StrategyError>)
        ensures
            match r {
                Ok(ranges) => slash_n_ranges(*self) == Ok::<Seq<Range<Ipv4>>, StrategyError>(
                    ranges.ranges(),
                ),
                Err(e) => slash_n_ranges(*self) == Err::<Seq<Range<Ipv4>>, StrategyError>(e),
            },
    {
        if self.1 > 32 {
            return Err(StrategyError::CidrOutOfRange);
        }
        Ok(Ranges::from_range(cidr_block(self.0, self.1)))
    }
}

} // verus!
