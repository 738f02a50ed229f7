//! The frame arena: one page-aligned run of equal frames, shared by every
//! socket of a session and parted among them by queue and role.

use crate::xdp::tx_metadata::TX_METADATA_LEN;
use vstd::prelude::*;

verus! {

/// In the registration's flags: the registration carries the length of the
/// transmit metadata header.
pub const XDP_UMEM_TX_METADATA_LEN: u32 = 4;

/// The alignment of the arena.
pub const UMEM_ALIGN: u64 = 16384;

/// The frame arena, by its address and size. The memory itself belongs to
/// whoever allocated it, and must outlive every socket bound to it.
#[derive(Clone, Copy, Debug, PartialEq, Eq, Structural)]
pub struct Umem {
    area: u64,
    size: usize,
    frame_size: u32,
}

/// What a socket is told of the arena (`XDP_UMEM_REG`).
#[derive(Clone, Copy, Debug, PartialEq, Eq, Structural)]
pub struct UmemReg {
    pub addr: u64,
    pub len: u64,
    pub frame_size: u32,
    pub headroom: u32,
    pub flags: u32,
    pub tx_metadata_len: u32,
}

impl Default for UmemReg {
    fn default() -> (r: Self)
        ensures
            r == (UmemReg { addr: 0, len: 0, frame_size: 0, headroom: 0, flags: 0, tx_metadata_len: 0 }),
    {
        UmemReg { addr: 0, len: 0, frame_size: 0, headroom: 0, flags: 0, tx_metadata_len: 0 }
    }
}

impl UmemReg {
    /// Drops the flags, for kernels that know none.
    pub fn remove_flags(&mut self)
        ensures
            *final(self) == (UmemReg { flags: 0, ..*old(self) }),
    {
        self.flags = 0;
    }
}

impl Umem {
    /// The address of the first byte.
    pub closed spec fn spec_area(&self) -> u64 {
        self.area
    }

    /// The length in bytes.
    pub closed spec fn spec_size(&self) -> usize {
        self.size
    }

    /// The length of one frame.
    pub closed spec fn spec_frame_size(&self) -> u32 {
        self.frame_size
    }

    /// The number of frames.
    pub open spec fn spec_frame_count(&self) -> int {
        if self.spec_frame_size() == 0 {
            0
        } else {
            (self.spec_size() as int) / (self.spec_frame_size() as int)
        }
    }

    /// The arena is a whole number of frames, starts on an aligned address
    /// and ends inside the address space.
    pub open spec fn wf(&self) -> bool {
        &&& self.spec_area() % UMEM_ALIGN == 0
        &&& self.spec_area() + self.spec_size() <= u64::MAX
        &&& self.spec_size() == self.spec_frame_count() * self.spec_frame_size()
        &&& self.spec_size() <= u32::MAX
    }

    /// The number of bytes that `frame_count` frames of `frame_size` bytes
    /// take, if that can be written in 32 bits.
    pub fn bytes_for(frame_size: u32, frame_count: u32) -> (n: Option<usize>)
        ensures
            n == if frame_size * frame_count <= u32::MAX {
                Some((frame_size * frame_count) as usize)
            } else {
                None::<usize>
            },
    {
        match frame_size.checked_mul(frame_count) {
            Some(n) => Some(n as usize),
            None => None,
        }
    }

    /// The arena of `frame_count` frames of `frame_size` bytes that lies at
    /// the address `area`. There is none where the size cannot be written in
    /// 32 bits, where the address is not aligned or where the arena would
    /// run past the end of the address space.
    pub fn new(area: u64, frame_size: u32, frame_count: u32) -> (u: Option<Self>)
        ensures
            u.is_some() <==> frame_size * frame_count <= u32::MAX && area % UMEM_ALIGN == 0 && area
                + frame_size * frame_count <= u64::MAX,
            u matches Some(umem) ==> umem.wf() && umem.spec_area() == area && umem.spec_size()
                == frame_size * frame_count && umem.spec_frame_size() == frame_size && (frame_size
                > 0 ==> umem.spec_frame_count() == frame_count),
    {
        let Some(size) = Umem::bytes_for(frame_size, frame_count) else {
            return None;
        };
        if area % UMEM_ALIGN != 0 || size as u64 > u64::MAX - area {
            return None;
        }
        let umem = Umem { area, size, frame_size };
        proof {
            let fs = frame_size as int;
            let fc = frame_count as int;
            if frame_size > 0 {
                assert((fs * fc) / fs == fc && fc * fs == fs * fc) by (nonlinear_arith)
                    requires
                        fs > 0,
                ;
                assert(umem.spec_frame_count() == fc);
            } else {
                assert(fs * fc == 0 && 0 * fs == 0) by (nonlinear_arith)
                    requires
                        fs == 0,
                ;
            }
        }
        Some(umem)
    }

    /// The address of the first byte.
    pub fn as_ptr(&self) -> (p: u64)
        ensures
            p == self.spec_area(),
    {
        self.area
    }

    /// The length in bytes.
    pub fn size(&self) -> (n: usize)
        ensures
            n == self.spec_size(),
    {
        self.size
    }

    /// The length of one frame.
    pub fn frame_size(&self) -> (n: u32)
        ensures
            n == self.spec_frame_size(),
    {
        self.frame_size
    }

    /// What a socket is told of the arena: no headroom, and a metadata
    /// header before each transmit frame.
    pub fn as_reg(&self) -> (r: UmemReg)
        ensures
            r == (UmemReg {
                addr: self.spec_area(),
                len: self.spec_size() as u64,
                frame_size: self.spec_frame_size(),
                headroom: 0,
                flags: XDP_UMEM_TX_METADATA_LEN,
                tx_metadata_len: TX_METADATA_LEN as u32,
            }),
    {
        UmemReg {
            addr: self.area,
            len: self.size as u64,
            frame_size: self.frame_size,
            headroom: 0,
            flags: XDP_UMEM_TX_METADATA_LEN,
            tx_metadata_len: TX_METADATA_LEN as u32,
        }
    }

    /// Where the frame `index` starts in the arena.
    pub fn frame_offset(&self, index: u32) -> (at: usize)
        requires
            self.wf(),
            index < self.spec_frame_count(),
        ensures
            at == index * self.spec_frame_size(),
            at + self.spec_frame_size() <= self.spec_size(),
    {
        proof {
            lemma_frame_inside(index as int, self.spec_frame_count(), self.spec_frame_size() as int);
        }
        (index as usize) * (self.frame_size as usize)
    }
}

proof fn lemma_frame_inside(index: int, count: int, frame_size: int)
    requires
        0 <= index < count,
        0 <= frame_size,
    ensures
        0 <= index * frame_size,
        index * frame_size + frame_size <= count * frame_size,
{
    assert(0 <= index * frame_size && (index + 1) * frame_size <= count * frame_size)
        by (nonlinear_arith)
        requires
            0 <= index < count,
            0 <= frame_size,
    ;
    assert((index + 1) * frame_size == index * frame_size + frame_size) by (nonlinear_arith);
}

/// Frames do not overlap: no byte of the arena belongs to two frames.
pub proof fn lemma_frames_disjoint(i: int, j: int, frame_size: int, byte: int)
    requires
        0 <= i,
        0 <= j,
        i != j,
        0 < frame_size,
        i * frame_size <= byte < i * frame_size + frame_size,
    ensures
        !(j * frame_size <= byte < j * frame_size + frame_size),
{
    if i < j {
        assert((i + 1) * frame_size <= j * frame_size) by (nonlinear_arith)
            requires
                i + 1 <= j,
                0 < frame_size,
        ;
        assert((i + 1) * frame_size == i * frame_size + frame_size) by (nonlinear_arith);
    } else {
        assert((j + 1) * frame_size <= i * frame_size) by (nonlinear_arith)
            requires
                j + 1 <= i,
                0 < frame_size,
        ;
        assert((j + 1) * frame_size == j * frame_size + frame_size) by (nonlinear_arith);
    }
}

} // verus!
