//! How an AF_XDP socket is bound: the flag set and the address record.

use vstd::prelude::*;

verus! {

pub const XDP_SHARED_UMEM: u16 = 1;

pub const XDP_COPY: u16 = 2;

pub const XDP_ZEROCOPY: u16 = 4;

pub const XDP_USE_NEED_WAKEUP: u16 = 8;

pub const XDP_USE_SG: u16 = 16;

/// The address family of AF_XDP sockets.
pub const AF_XDP: u16 = 44;

/// The flags of a bind.
#[derive(Clone, Copy, Debug, PartialEq, Eq, Structural)]
pub struct BindFlags {
    pub bits: u16,
}

impl BindFlags {
    /// The flag word.
    pub open spec fn view(&self) -> u16 {
        self.bits
    }

    /// No flag: the kernel picks zero-copy where the driver can do it and
    /// falls back to copying where not.
    pub fn empty() -> (f: Self)
        ensures
            f@ == 0,
    {
        BindFlags { bits: 0 }
    }

    pub fn need_wakeup() -> (f: Self)
        ensures
            f@ == XDP_USE_NEED_WAKEUP,
    {
        BindFlags { bits: XDP_USE_NEED_WAKEUP }
    }

    pub fn zero_copy() -> (f: Self)
        ensures
            f@ == XDP_ZEROCOPY,
    {
        BindFlags { bits: XDP_ZEROCOPY }
    }

    pub fn copy() -> (f: Self)
        ensures
            f@ == XDP_COPY,
    {
        BindFlags { bits: XDP_COPY }
    }

    pub fn shared_umem() -> (f: Self)
        ensures
            f@ == XDP_SHARED_UMEM,
    {
        BindFlags { bits: XDP_SHARED_UMEM }
    }

    pub fn use_sg() -> (f: Self)
        ensures
            f@ == XDP_USE_SG,
    {
        BindFlags { bits: XDP_USE_SG }
    }

    /// The flag word.
    pub fn bits(&self) -> (b: u16)
        ensures
            b == self@,
    {
        self.bits
    }

    /// The flags set in either.
    pub fn union(self, other: BindFlags) -> (f: Self)
        ensures
            f@ == self@ | other@,
    {
        BindFlags { bits: self.bits | other.bits }
    }

    /// Whether every flag of `other` is set here.
    pub fn contains(&self, other: BindFlags) -> (b: bool)
        ensures
            b == (self@ & other@ == other@),
    {
        self.bits & other.bits == other.bits
    }
}

/// The address a socket is bound to (`sockaddr_xdp`).
#[derive(Clone, Copy, Debug, PartialEq, Eq, Structural)]
pub struct SockAddrXdp {
    pub family: u16,
    pub flags: u16,
    pub ifindex: u32,
    pub queue_id: u32,
    pub shared_umem_fd: u32,
}

/// The address for a bind to queue `queue_id` of the interface `if_index`.
pub fn bind_address(flags: BindFlags, if_index: u32, queue_id: u32, shared_umem_fd: u32) -> (a:
    SockAddrXdp)
    ensures
        a == (SockAddrXdp {
            family: AF_XDP,
            flags: flags@,
            ifindex: if_index,
            queue_id,
            shared_umem_fd,
        }),
{
    SockAddrXdp {
        family: AF_XDP,
        flags: flags.bits(),
        ifindex: if_index,
        queue_id,
        shared_umem_fd,
    }
}

} // verus!
