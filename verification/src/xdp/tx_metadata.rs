//! The metadata header that stands before a frame's data when transmit
//! offloads are asked for.

use vstd::prelude::*;

verus! {

/// In a descriptor's options: the frame has a metadata header.
pub const XDP_TX_METADATA: u32 = 2;

/// In the header's flags: write the transmit time back into the header.
pub const XDP_TXMD_FLAGS_TIMESTAMP: u32 = 1;

/// In the header's flags: complete the checksum on transmission.
pub const XDP_TXMD_FLAGS_CHECKSUM: u32 = 2;

/// Where the TCP header starts in a frame's data: where the NIC starts to
/// sum.
pub const CSUM_START: u16 = 34;

/// Where the checksum lies in the TCP header.
pub const CSUM_OFFSET: u16 = 16;

/// What the kernel writes back once a frame is sent.
#[derive(Clone, Copy, Debug, PartialEq, Eq, Structural)]
pub struct TxMetadataCompletion {
    pub timestamp: u64,
}

/// What user space asks for.
#[derive(Clone, Copy, Debug, PartialEq, Eq, Structural)]
pub struct TxMetadataRequest {
    pub csum_start: u16,
    pub csum_offset: u16,
}

/// The second half of the header: a request on the way in, a completion on
/// the way out. Both lie at the same place.
#[derive(Clone, Copy, Debug, PartialEq, Eq, Structural)]
pub enum TxMetadataRc {
    Request(TxMetadataRequest),
    Completion(TxMetadataCompletion),
}

/// The metadata header of a transmit frame.
#[derive(Clone, Copy, Debug, PartialEq, Eq, Structural)]
pub struct TxMetadata {
    pub flags: u64,
    pub rc: TxMetadataRc,
}

/// The length of the metadata header: the size of the kernel's
/// `xsk_tx_metadata`.
pub const TX_METADATA_LEN: usize = 16;

/// The eight bytes of `value`, lowest first.
pub open spec fn le64(value: u64) -> Seq<u8> {
    seq![
        (value % 0x100) as u8,
        (value / 0x100 % 0x100) as u8,
        (value / 0x1_0000 % 0x100) as u8,
        (value / 0x100_0000 % 0x100) as u8,
        (value / 0x1_0000_0000 % 0x100) as u8,
        (value / 0x100_0000_0000 % 0x100) as u8,
        (value / 0x1_0000_0000_0000 % 0x100) as u8,
        (value / 0x100_0000_0000_0000 % 0x100) as u8,
    ]
}

/// The two bytes of `value`, lowest first.
pub open spec fn le16(value: u16) -> Seq<u8> {
    seq![(value % 0x100) as u8, (value / 0x100) as u8]
}

/// The header as it lies in a frame on a little-endian host: the flags, then
/// the request (padded with zeros) or the completion.
pub open spec fn header_bytes(m: TxMetadata) -> Seq<u8> {
    le64(m.flags) + match m.rc {
        TxMetadataRc::Request(r) => le16(r.csum_start) + le16(r.csum_offset) + seq![
            0u8,
            0u8,
            0u8,
            0u8,
        ],
        TxMetadataRc::Completion(c) => le64(c.timestamp),
    }
}

fn put_le64(out: &mut [u8; 16], at: usize, value: u64)
    requires
        at + 8 <= 16,
    ensures
        final(out)@.subrange(at as int, at + 8) == le64(value),
        forall|i: int| 0 <= i < 16 && !(at <= i < at + 8) ==> final(out)@[i] == old(out)@[i],
{
    out[at] = (value % 0x100) as u8;
    out[at + 1] = (value / 0x100 % 0x100) as u8;
    out[at + 2] = (value / 0x1_0000 % 0x100) as u8;
    out[at + 3] = (value / 0x100_0000 % 0x100) as u8;
    out[at + 4] = (value / 0x1_0000_0000 % 0x100) as u8;
    out[at + 5] = (value / 0x100_0000_0000 % 0x100) as u8;
    out[at + 6] = (value / 0x1_0000_0000_0000 % 0x100) as u8;
    out[at + 7] = (value / 0x100_0000_0000_0000 % 0x100) as u8;
    assert(out@.subrange(at as int, at + 8) =~= le64(value));
}

impl TxMetadata {
    pub fn completion(flags: u64, timestamp: u64) -> (m: Self)
        ensures
            m.flags == flags,
            m.rc == TxMetadataRc::Completion(TxMetadataCompletion { timestamp }),
    {
        TxMetadata { flags, rc: TxMetadataRc::Completion(TxMetadataCompletion { timestamp }) }
    }

    pub fn request(flags: u64, csum_start: u16, csum_offset: u16) -> (m: Self)
        ensures
            m.flags == flags,
            m.rc == TxMetadataRc::Request(TxMetadataRequest { csum_start, csum_offset }),
    {
        TxMetadata { flags, rc: TxMetadataRc::Request(TxMetadataRequest { csum_start, csum_offset }) }
    }

    /// The header as it is written to a frame.
    pub fn to_bytes(&self) -> (bytes: [u8; 16])
        ensures
            bytes@ == header_bytes(*self),
    {
        let mut out: [u8; 16] = [0u8; 16];
        put_le64(&mut out, 0, self.flags);
        match self.rc {
            TxMetadataRc::Request(r) => {
                out[8] = (r.csum_start % 0x100) as u8;
                out[9] = (r.csum_start / 0x100) as u8;
                out[10] = (r.csum_offset % 0x100) as u8;
                out[11] = (r.csum_offset / 0x100) as u8;
            },
            TxMetadataRc::Completion(c) => {
                put_le64(&mut out, 8, c.timestamp);
            },
        }
        assert(out@ =~= header_bytes(*self));
        out
    }
}

} // verus!
