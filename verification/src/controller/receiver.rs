//! Where received frames lie, and which frames are offered to receive into.

use crate::xdp::ring::Descriptor;
use vstd::prelude::*;

verus! {

/// In unaligned mode, an address holds the chunk's address in its low 48
/// bits and an offset into the chunk above them.
pub const XSK_UNALIGNED_BUF_OFFSET_SHIFT: u32 = 48;

pub const XSK_UNALIGNED_BUF_ADDR_MASK: u64 = 0xFFFF_FFFF_FFFF;

/// A received frame in the arena.
#[derive(Clone, Copy, Debug, PartialEq, Eq, Structural)]
pub struct Received {
    /// The address of the chunk, which goes back to the fill ring once the
    /// frame has been read.
    pub comp_addr: u64,
    /// Where the frame's data starts in the arena.
    pub start: usize,
    /// The length of the data.
    pub len: usize,
}

/// The chunk address of a descriptor.
pub open spec fn chunk_of(addr: u64) -> u64 {
    addr & XSK_UNALIGNED_BUF_ADDR_MASK
}

/// The offset into the chunk of a descriptor.
pub open spec fn offset_of(addr: u64) -> u64 {
    addr >> 48
}

/// Where the frame of a receive descriptor lies in an arena of `umem_size`
/// bytes: nowhere, if it does not lie inside.
pub open spec fn located(desc: Descriptor, umem_size: usize) -> Option<Received> {
    if chunk_of(desc.addr) + offset_of(desc.addr) + desc.len <= umem_size {
        Some(
            Received {
                comp_addr: chunk_of(desc.addr),
                start: (chunk_of(desc.addr) + offset_of(desc.addr)) as usize,
                len: desc.len as usize,
            },
        )
    } else {
        None
    }
}

/// Finds the frame of a receive descriptor in an arena of `umem_size`
/// bytes.
pub fn locate(desc: &Descriptor, umem_size: usize) -> (r: Option<Received>)
    ensures
        r == located(*desc, umem_size),
{
    let addr: u64 = desc.addr;
    let comp_addr: u64 = addr & XSK_UNALIGNED_BUF_ADDR_MASK;
    let offset: u64 = addr >> 48;
    assert(comp_addr <= 0xFFFF_FFFF_FFFF && offset <= 0xFFFF) by (bit_vector)
        requires
            comp_addr == addr & 0xFFFF_FFFF_FFFFu64,
            offset == addr >> 48u64,
    ;
    let end: u64 = comp_addr + offset + desc.len as u64;
    if end <= umem_size as u64 {
        Some(Received { comp_addr, start: (comp_addr + offset) as usize, len: desc.len as usize })
    } else {
        None
    }
}

/// The address of the `i`-th frame offered to the fill ring by a receiver
/// whose frames start at `starting_frame`, if it can be written in 32 bits.
pub fn fill_address(starting_frame: u32, i: u32, frame_size: u32) -> (addr: Option<u64>)
    ensures
        addr == if (starting_frame + i) * frame_size <= u32::MAX {
            Some(((starting_frame + i) * frame_size) as u64)
        } else {
            None::<u64>
        },
{
    let frame: u64 = starting_frame as u64 + i as u64;
    assert(frame * frame_size <= 0x2_0000_0000 * 0x1_0000_0000) by (nonlinear_arith)
        requires
            frame <= 0x2_0000_0000,
            frame_size <= 0x1_0000_0000,
    ;
    let addr: u128 = (frame as u128) * (frame_size as u128);
    if addr <= u32::MAX as u128 {
        Some(addr as u64)
    } else {
        None
    }
}

} // verus!
