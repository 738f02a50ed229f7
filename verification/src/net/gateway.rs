//! The gateway of an interface, read out of the kernel's routing and
//! neighbour tables as it prints them.

use crate::net::ip::{hex_address, parse_bytes};
use crate::net::mac::{mac_of, MacAddr, MacError};
use crate::net::tcp::Ipv4;
use crate::net::text::{
    dotted, find_from, read_dotted, same_bytes, seg_end, trim, trimmed_end, trimmed_start,
};
use vstd::prelude::*;
use vstd::string::StringSliceAdditionalSpecFns;

verus! {

/// Why a table names no gateway.
#[derive(Clone, Copy, Debug, PartialEq, Eq, Structural)]
pub enum GatewayError {
    /// No row is about what was asked for.
    NotFound,
    /// The row's gateway is no address.
    BadAddress,
    /// The row's hardware address is none.
    BadMac(MacError),
}

/// The gateway of a route that has none: `00000000`.
pub open spec fn no_gateway() -> Seq<u8> {
    seq![0x30u8, 0x30u8, 0x30u8, 0x30u8, 0x30u8, 0x30u8, 0x30u8, 0x30u8]
}

/// What the row `s[from..to]` of the routing table says of the gateway of
/// `iface`: nothing, unless it has three fields or more, set apart by tabs,
/// the first of which is `iface` and the third of which is not `00000000`;
/// then the address that the third field spells, if it spells one.
pub open spec fn route_row(s: Seq<u8>, from: int, to: int, iface: Seq<u8>) -> Option<Option<Ipv4>> {
    let t0 = seg_end(s, from, to, 0x09);
    let t1 = seg_end(s, t0 + 1, to, 0x09);
    let t2 = seg_end(s, t1 + 1, to, 0x09);
    if t0 < to && t1 < to && s.subrange(t1 + 1, t2) != no_gateway() && s.subrange(from, t0)
        == iface {
        Some(hex_address(s.subrange(t1 + 1, t2)))
    } else {
        None
    }
}

/// The gateway that the rows of `s[from..to]` name for `iface`: that of the
/// first row that says anything of it.
pub open spec fn gateway_from(s: Seq<u8>, from: int, to: int, iface: Seq<u8>) -> Result<
    Ipv4,
    GatewayError,
>
    decreases to - from,
{
    if from > to {
        Err(GatewayError::NotFound)
    } else {
        let end = seg_end(s, from, to, 0x0a);
        match route_row(s, from, end, iface) {
            Some(Some(ip)) => Ok(ip),
            Some(None) => Err(GatewayError::BadAddress),
            None => if from <= end < to {
                gateway_from(s, end + 1, to, iface)
            } else {
                Err(GatewayError::NotFound)
            },
        }
    }
}

/// The gateway that a routing table names for `iface`.
pub open spec fn gateway_of(s: Seq<u8>, iface: Seq<u8>) -> Result<Ipv4, GatewayError> {
    let lo = trimmed_start(s, 0, s.len() as int);
    let hi = trimmed_end(s, lo, s.len() as int);
    gateway_from(s, lo, hi, iface)
}

fn read_route_row(s: &[u8], from: usize, to: usize, iface: &[u8]) -> (r: Option<Option<Ipv4>>)
    requires
        from <= to <= s@.len(),
    ensures
        r == route_row(s@, from as int, to as int, iface@),
{
    let t0 = find_from(s, from, to, 0x09);
    if t0 >= to {
        return None;
    }
    let t1 = find_from(s, t0 + 1, to, 0x09);
    if t1 >= to {
        return None;
    }
    let t2 = find_from(s, t1 + 1, to, 0x09);
    let zeros: [u8; 8] = [0x30, 0x30, 0x30, 0x30, 0x30, 0x30, 0x30, 0x30];
    assert(zeros@ =~= no_gateway());
    let gateway = &s[t1 + 1..t2];
    if same_bytes(gateway, zeros.as_slice()) || !same_bytes(&s[from..t0], iface) {
        return None;
    }
    Some(parse_bytes(gateway))
}

/// Finds the gateway of `iface` in the routing table `route_data`.
pub fn get_ipv4(route_data: &str, iface: &str) -> (r: Result<Ipv4, GatewayError>)
    ensures
        r == gateway_of(route_data.spec_bytes(), iface.spec_bytes()),
{
    let s = route_data.as_bytes();
    let name = iface.as_bytes();
    let (lo, hi) = trim(s, 0, s.len());
    let mut from = lo;
    loop
        invariant
            s@ == route_data.spec_bytes(),
            name@ == iface.spec_bytes(),
            lo <= from <= hi <= s@.len(),
            gateway_from(s@, lo as int, hi as int, name@) == gateway_from(
                s@,
                from as int,
                hi as int,
                name@,
            ),
            gateway_of(s@, name@) == gateway_from(s@, lo as int, hi as int, name@),
        decreases hi - from,
    {
        let end = find_from(s, from, hi, 0x0a);
        match read_route_row(s, from, end, name) {
            Some(Some(ip)) => {
                return Ok(ip);
            },
            Some(None) => {
                return Err(GatewayError::BadAddress);
            },
            None => {
                if end < hi {
                    from = end + 1;
                } else {
                    return Err(GatewayError::NotFound);
                }
            },
        }
    }
}

/// Where the next word of `s[from..to]` starts: at the first byte from
/// `from` on that is no blank, or at `to`.
pub open spec fn word_start(s: Seq<u8>, from: int, to: int) -> int
    decreases to - from,
{
    if from >= to || s[from] != 0x20 {
        from
    } else {
        word_start(s, from + 1, to)
    }
}

/// The `n`-th word of `s[from..to]`, words being set apart by blanks: where
/// it starts and where it ends. A word that is not there starts at `to`.
pub open spec fn word(s: Seq<u8>, from: int, to: int, n: nat) -> (int, int)
    decreases n,
{
    if n == 0 {
        let start = word_start(s, from, to);
        (start, seg_end(s, start, to, 0x20))
    } else {
        let before = word(s, from, to, (n - 1) as nat);
        let start = word_start(s, before.1, to);
        (start, seg_end(s, start, to, 0x20))
    }
}

/// What the row `s[from..to]` of the neighbour table says of the hardware
/// address of `ip`: nothing, unless it has six words or more, the first of
/// which spells `ip`; then the address that the fourth word spells, if it
/// spells one.
pub open spec fn arp_row(s: Seq<u8>, from: int, to: int, ip: Ipv4) -> Option<
    Result<Seq<u8>, MacError>,
> {
    let first = word(s, from, to, 0);
    let fourth = word(s, from, to, 3);
    let sixth = word(s, from, to, 5);
    if sixth.0 < to && dotted(s.subrange(first.0, first.1)) == Some(ip) {
        Some(mac_of(s.subrange(fourth.0, fourth.1)))
    } else {
        None
    }
}

/// The hardware address that the rows of `s[from..to]` name for `ip`: that
/// of the first row that says anything of it.
pub open spec fn mac_from(s: Seq<u8>, from: int, to: int, ip: Ipv4) -> Result<Seq<u8>, GatewayError>
    decreases to - from,
{
    if from > to {
        Err(GatewayError::NotFound)
    } else {
        let end = seg_end(s, from, to, 0x0a);
        match arp_row(s, from, end, ip) {
            Some(Ok(mac)) => Ok(mac),
            Some(Err(e)) => Err(GatewayError::BadMac(e)),
            None => if from <= end < to {
                mac_from(s, end + 1, to, ip)
            } else {
                Err(GatewayError::NotFound)
            },
        }
    }
}

/// The hardware address that a neighbour table names for `ip`.
pub open spec fn mac_for(s: Seq<u8>, ip: Ipv4) -> Result<Seq<u8>, GatewayError> {
    let lo = trimmed_start(s, 0, s.len() as int);
    let hi = trimmed_end(s, lo, s.len() as int);
    mac_from(s, lo, hi, ip)
}

fn next_word(s: &[u8], from: usize, to: usize) -> (r: (usize, usize))
    requires
        from <= to <= s@.len(),
    ensures
        r.0 == word_start(s@, from as int, to as int),
        r.1 == seg_end(s@, r.0 as int, to as int, 0x20),
        from <= r.0 <= r.1 <= to,
{
    let mut start = from;
    while start < to && s[start] == 0x20
        invariant
            from <= start <= to <= s@.len(),
            word_start(s@, from as int, to as int) == word_start(s@, start as int, to as int),
        decreases to - start,
    {
        start += 1;
    }
    (start, find_from(s, start, to, 0x20))
}

fn read_arp_row(s: &[u8], from: usize, to: usize, ip: Ipv4) -> (r: Option<Result<MacAddr, MacError>>)
    requires
        from <= to <= s@.len(),
    ensures
        match r {
            None => arp_row(s@, from as int, to as int, ip).is_none(),
            Some(Ok(mac)) => arp_row(s@, from as int, to as int, ip) == Some(
                Ok::<Seq<u8>, MacError>(mac@),
            ),
            Some(Err(e)) => arp_row(s@, from as int, to as int, ip) == Some(
                Err::<Seq<u8>, MacError>(e),
            ),
        },
{
    reveal_with_fuel(word, 6);
    let first = next_word(s, from, to);
    let second = next_word(s, first.1, to);
    let third = next_word(s, second.1, to);
    let fourth = next_word(s, third.1, to);
    let fifth = next_word(s, fourth.1, to);
    let sixth = next_word(s, fifth.1, to);
    if sixth.0 >= to {
        return None;
    }
    match read_dotted(s, first.0, first.1) {
        Some(found) => {
            if found != ip {
                return None;
            }
        },
        None => {
            return None;
        },
    }
    Some(MacAddr::from_bytes(&s[fourth.0..fourth.1]))
}

/// Finds the hardware address of `ip` in the neighbour table `arp_data`.
pub fn get_mac(arp_data: &str, ip: Ipv4) -> (r: Result<MacAddr, GatewayError>)
    ensures
        match r {
            Ok(mac) => mac_for(arp_data.spec_bytes(), ip) == Ok::<Seq<u8>, GatewayError>(mac@),
            Err(e) => mac_for(arp_data.spec_bytes(), ip) == Err::<Seq<u8>, GatewayError>(e),
        },
{
    let s = arp_data.as_bytes();
    let (lo, hi) = trim(s, 0, s.len());
    let mut from = lo;
    loop
        invariant
            s@ == arp_data.spec_bytes(),
            lo <= from <= hi <= s@.len(),
            mac_from(s@, lo as int, hi as int, ip) == mac_from(s@, from as int, hi as int, ip),
            mac_for(s@, ip) == mac_from(s@, lo as int, hi as int, ip),
        decreases hi - from,
    {
        let end = find_from(s, from, hi, 0x0a);
        match read_arp_row(s, from, end, ip) {
            Some(Ok(mac)) => {
                return Ok(mac);
            },
            Some(Err(e)) => {
                return Err(GatewayError::BadMac(e));
            },
            None => {
                if end < hi {
                    from = end + 1;
                } else {
                    return Err(GatewayError::NotFound);
                }
            },
        }
    }
}

} // verus!
