//! The ingress filter: which received frames are answers to the scanner and
//! go to its sockets, and which are left to the kernel.

use vstd::prelude::*;

verus! {

/// What becomes of a frame.
#[derive(Clone, Copy, Debug, PartialEq, Eq, Structural)]
pub enum XdpAction {
    /// The frame is dropped and the event counted as an error.
    Aborted,
    /// The frame goes on to the kernel's stack.
    Pass,
    /// The frame goes to the socket bound to this receive queue; if it
    /// cannot, it passes.
    Redirect(u32),
}

pub const ETH_HEADER_LEN: usize = 14;

pub const IPV4_HEADER_LEN: usize = 20;

pub const TCP_BASE_HEADER_LEN: usize = 20;

pub const ETHERTYPE_IPV4: u16 = 0x0800;

pub const IPPROTO_TCP: u8 = 6;

/// The 16-bit number at `i`, high byte first.
pub open spec fn word_at(frame: Seq<u8>, i: int) -> u16 {
    (frame[i] * 0x100 + frame[i + 1]) as u16
}

/// Where the TCP header starts.
pub open spec fn tcp_offset(frame: Seq<u8>) -> int {
    ETH_HEADER_LEN + 4 * (frame[14] % 16)
}

/// The verdict on a frame received on queue `rx_queue_index`, for the source
/// port window from `source_port_start` to `source_port_end`, both
/// included. The program aborts where a bound of the window is not set, or
/// where the frame ends before a header that it should hold. It passes what
/// is not IPv4, not TCP, or not sent to a port of the window. All else it
/// redirects.
pub open spec fn verdict(
    frame: Seq<u8>,
    rx_queue_index: u32,
    source_port_start: u16,
    source_port_end: u16,
) -> XdpAction {
    if source_port_start == 0 || source_port_end == 0 {
        XdpAction::Aborted
    } else if frame.len() < ETH_HEADER_LEN {
        XdpAction::Aborted
    } else if word_at(frame, 12) != ETHERTYPE_IPV4 {
        XdpAction::Pass
    } else if frame.len() < ETH_HEADER_LEN + IPV4_HEADER_LEN {
        XdpAction::Aborted
    } else if frame[23] != IPPROTO_TCP {
        XdpAction::Pass
    } else if frame.len() < tcp_offset(frame) + TCP_BASE_HEADER_LEN {
        XdpAction::Aborted
    } else if word_at(frame, tcp_offset(frame) + 2) < source_port_start || word_at(
        frame,
        tcp_offset(frame) + 2,
    ) > source_port_end {
        XdpAction::Pass
    } else {
        XdpAction::Redirect(rx_queue_index)
    }
}

/// Decides what becomes of a received frame.
pub fn classify(frame: &[u8], rx_queue_index: u32, source_port_start: u16, source_port_end: u16)
    -> (action: XdpAction)
    ensures
        action == verdict(frame@, rx_queue_index, source_port_start, source_port_end),
{
    if source_port_start == 0 || source_port_end == 0 {
        return XdpAction::Aborted;
    }
    if frame.len() < ETH_HEADER_LEN {
        return XdpAction::Aborted;
    }
    let ether_type: u16 = (frame[12] as u16) * 0x100 + (frame[13] as u16);
    if ether_type != ETHERTYPE_IPV4 {
        return XdpAction::Pass;
    }
    if frame.len() < ETH_HEADER_LEN + IPV4_HEADER_LEN {
        return XdpAction::Aborted;
    }
    if frame[23] != IPPROTO_TCP {
        return XdpAction::Pass;
    }
    let tcp: usize = ETH_HEADER_LEN + 4 * ((frame[14] % 16) as usize);
    if frame.len() < tcp + TCP_BASE_HEADER_LEN {
        return XdpAction::Aborted;
    }
    let dest: u16 = (frame[tcp + 2] as u16) * 0x100 + (frame[tcp + 3] as u16);
    if dest < source_port_start || dest > source_port_end {
        return XdpAction::Pass;
    }
    XdpAction::Redirect(rx_queue_index)
}

} // verus!
