//! What every worker of a session knows.

use crate::net::mac::MacAddr;
use crate::net::tcp::Ipv4;
use crate::xdp::umem::Umem;
use vstd::prelude::*;

verus! {

/// The fixed context of a session.
#[derive(Clone, Copy, Debug)]
pub struct SharedData {
    pub umem: Umem,
    /// The address that segments are sent from.
    pub source_ip: Ipv4,
    /// The Ethernet address of the gateway.
    pub gateway: MacAddr,
    /// The Ethernet address of the interface.
    pub interface: MacAddr,
    /// The first and the last port that segments are sent from.
    pub source_port_range: (u16, u16),
    /// Seconds between two throughput reports.
    pub print_every: u64,
    /// The seed of the SYN cookies and of the scan order.
    pub seed: u64,
}

impl SharedData {
    pub fn new(
        umem: Umem,
        source_ip: Ipv4,
        gateway: MacAddr,
        interface: MacAddr,
        source_port_range: (u16, u16),
        print_every: u64,
        seed: u64,
    ) -> (s: Self)
        ensures
            s.umem == umem,
            s.source_ip == source_ip,
            s.gateway == gateway,
            s.interface == interface,
            s.source_port_range == source_port_range,
            s.print_every == print_every,
            s.seed == seed,
    {
        SharedData { umem, source_ip, gateway, interface, source_port_range, print_every, seed }
    }
}

} // verus!
