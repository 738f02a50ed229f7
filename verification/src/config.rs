//! The settings of a scan.

use crate::controller::protocol::ParserKind;
use crate::xdp::socket::{BindFlags, XDP_COPY, XDP_ZEROCOPY};
use vstd::prelude::*;

verus! {

pub struct ControllerConfig {
    /// The first and the last port that outgoing segments come from.
    pub source_port_range: [u16; 2],
    pub interface: String,
    /// Seconds between two throughput reports.
    pub print_every: u64,
}

pub struct MongoConfig {
    pub url: String,
    pub database: String,
    pub collections: Vec<CollectionConfig>,
}

pub struct CollectionConfig {
    pub parser: ParserKind,
    pub collection: String,
}

pub struct SessionConfig {
    /// Seconds that one session lasts.
    pub duration: u64,
}

pub struct PingConfig {
    /// Seconds after which a silent connection is forgotten.
    pub timeout: u64,
    pub slp: SLPConfig,
}

pub struct SLPConfig {
    pub host: String,
    pub port: u16,
    pub protocol_version: i32,
}

/// How frames pass between NIC and user space.
#[derive(Clone, Copy, Debug, PartialEq, Eq, Structural)]
pub enum XdpMode {
    Copy,
    ZeroCopy,
    /// Zero-copy where the driver can do it, copying where not.
    Fallback,
}

impl XdpMode {
    /// The bind flags of the mode.
    pub fn to_flags(&self) -> (f: BindFlags)
        ensures
            f@ == match *self {
                XdpMode::Copy => XDP_COPY,
                XdpMode::ZeroCopy => XDP_ZEROCOPY,
                XdpMode::Fallback => 0,
            },
    {
        match self {
            XdpMode::Copy => BindFlags::copy(),
            XdpMode::ZeroCopy => BindFlags::zero_copy(),
            XdpMode::Fallback => BindFlags::empty(),
        }
    }
}

/// Where the filter program is attached.
#[derive(Clone, Copy, Debug, PartialEq, Eq, Structural)]
pub enum XdpAttachMode {
    Driver,
    Hardware,
    Skb,
}

/// Attach in the kernel's generic path.
pub const XDP_FLAGS_SKB_MODE: u32 = 2;

/// Attach in the driver.
pub const XDP_FLAGS_DRV_MODE: u32 = 4;

/// Attach on the NIC.
pub const XDP_FLAGS_HW_MODE: u32 = 8;

impl XdpAttachMode {
    /// The attach flags of the mode.
    pub fn to_flags(&self) -> (f: u32)
        ensures
            f == match *self {
                XdpAttachMode::Driver => XDP_FLAGS_DRV_MODE,
                XdpAttachMode::Hardware => XDP_FLAGS_HW_MODE,
                XdpAttachMode::Skb => XDP_FLAGS_SKB_MODE,
            },
    {
        match self {
            XdpAttachMode::Driver => XDP_FLAGS_DRV_MODE,
            XdpAttachMode::Hardware => XDP_FLAGS_HW_MODE,
            XdpAttachMode::Skb => XDP_FLAGS_SKB_MODE,
        }
    }
}

pub struct XdpConfig {
    pub mode: XdpMode,
    pub attach_mode: XdpAttachMode,
    pub ring_size: u32,
}

} // verus!
