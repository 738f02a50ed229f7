//! Strategies over ports. A range of ports includes its end.

use crate::controller::strategy::{Strategy, StrategyError};
use crate::net::range::{PortRanges, Ranges};
use core::ops::Range;
use vstd::prelude::*;

verus! {

/// Every port from 1024 on.
#[derive(Clone, Copy, Debug, Default)]
pub struct AllPortsNonPrivileged;

impl Strategy for AllPortsNonPrivileged {
    type Output = u16;

    fn generate_ranges(&self) -> (r: Result<PortRanges, StrategyError>)
        ensures
            r.is_ok(),
            r.unwrap().ranges() == seq![Range { start: 1024u16, end: 65535u16 }],
    {
        Ok(Ranges::from_range(Range { start: 1024, end: 65535 }))
    }
}

/// One port.
#[derive(Clone, Copy, Debug)]
pub struct OnePort(pub u16);

impl OnePort {
    pub fn new(port: u16) -> (s: Self)
        ensures
            s.0 == port,
    {
        OnePort(port)
    }
}

impl Strategy for OnePort {
    type Output = u16;

    fn generate_ranges(&self) -> (r: Result<PortRanges, StrategyError>)
        ensures
            r.is_ok(),
            r.unwrap().ranges() == seq![Range { start: self.0, end: self.0 }],
    {
        Ok(Ranges::from_range(Range { start: self.0, end: self.0 }))
    }
}

/// The ports from the first to the second, both included.
#[derive(Clone, Copy, Debug, Default)]
pub struct RangedPorts(pub u16, pub u16);

impl RangedPorts {
    pub fn new(a: u16, b: u16) -> (s: Self)
        ensures
            s.0 == a,
            s.1 == b,
    {
        RangedPorts(a, b)
    }
}

impl Strategy for RangedPorts {
    type Output = u16;

    fn generate_ranges(&self) -> (r: Result<PortRanges, StrategyError>)
        ensures
            r.is_ok(),
            r.unwrap().ranges() == seq![Range { start: self.0, end: self.1 }],
    {
        Ok(Ranges::from_range(Range { start: self.0, end: self.1 }))
    }
}

} // verus!
