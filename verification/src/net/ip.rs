//! IPv4 addresses: blocks by prefix length, and the hexadecimal form in
//! which the kernel's routing table prints them.

use crate::net::tcp::Ipv4;
use crate::net::text::{hex_u8, quad, read_hex_u8};
use core::ops::Range;
use vstd::prelude::*;
use vstd::string::StringSliceAdditionalSpecFns;

verus! {

/// The host bits of a block with a prefix of `prefix` bits.
pub open spec fn host_mask(prefix: u8) -> u32
    recommends
        prefix <= 32,
{
    if prefix == 0 {
        0xffff_ffff
    } else {
        (((1u32 << ((32 - prefix) as u32)) - 1) as u32)
    }
}

/// The block of addresses that share the first `prefix` bits of `ip`, from
/// its first address to its last.
pub open spec fn block_of_prefix(ip: Ipv4, prefix: u8) -> Range<Ipv4> {
    Range { start: ip & !host_mask(prefix), end: ip | host_mask(prefix) }
}

/// The block of addresses that share the first `prefix` bits of `ip`.
pub fn cidr_block(ip: Ipv4, prefix: u8) -> (r: Range<Ipv4>)
    requires
        prefix <= 32,
    ensures
        r == block_of_prefix(ip, prefix),
        r.start <= ip <= r.end,
{
    let mask: u32 = if prefix == 0 {
        0xffff_ffff
    } else {
        let shift: u32 = (32 - prefix) as u32;
        assert((1u32 << shift) >= 1) by (bit_vector)
            requires
                shift < 32,
        ;
        (1u32 << shift) - 1
    };
    let start = ip & !mask;
    let end = ip | mask;
    assert(start <= ip && ip <= end) by (bit_vector)
        requires
            start == ip & !mask,
            end == ip | mask,
    ;
    Range { start, end }
}

/// An address as the routing table prints it: eight bytes, four numbers of
/// two hexadecimal digits each, the last octet first.
pub open spec fn hex_address(s: Seq<u8>) -> Option<Ipv4> {
    if s.len() != 8 {
        None
    } else {
        match (
            hex_u8(s.subrange(6, 8)),
            hex_u8(s.subrange(4, 6)),
            hex_u8(s.subrange(2, 4)),
            hex_u8(s.subrange(0, 2)),
        ) {
            (Some(a), Some(b), Some(c), Some(d)) => Some(quad(a, b, c, d)),
            _ => None,
        }
    }
}

/// Reads an address as the routing table prints it.
pub fn parse_bytes(b: &[u8]) -> (r: Option<Ipv4>)
    ensures
        r == hex_address(b@),
{
    if b.len() != 8 {
        return None;
    }
    match (read_hex_u8(b, 6, 8), read_hex_u8(b, 4, 6), read_hex_u8(b, 2, 4), read_hex_u8(b, 0, 2)) {
        (Some(o1), Some(o2), Some(o3), Some(o4)) => Some(
            (o1 as u32) * 0x100_0000 + (o2 as u32) * 0x1_0000 + (o3 as u32) * 0x100 + (o4 as u32),
        ),
        _ => None,
    }
}

/// Reads an address as the routing table prints it.
pub fn parse(s: &str) -> (r: Option<Ipv4>)
    ensures
        r == hex_address(s.spec_bytes()),
{
    parse_bytes(s.as_bytes())
}

} // verus!
