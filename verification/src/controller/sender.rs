//! What goes out: the description of one TCP segment, and the bytes it
//! becomes in a transmit frame.

use crate::controller::shared::SharedData;
use crate::net::tcp::{
    finalize_checksum, ipv4_sum, ipv4_sum_of, octets, octets_of, ones_fold,
    raw_partial, Ipv4, TcpFlags, TCP_PACKET,
};
use crate::xdp::ring::Descriptor;
use crate::xdp::tx_metadata::{
    header_bytes, TxMetadata, TxMetadataRc, TxMetadataRequest, CSUM_OFFSET, CSUM_START,
    TX_METADATA_LEN, XDP_TXMD_FLAGS_CHECKSUM, XDP_TX_METADATA,
};
use rand::{Rng, SeedableRng};
use rand_xorshift::XorShiftRng;
use vstd::prelude::*;

verus! {

/// One TCP segment to send.
#[derive(Debug)]
pub struct PacketTemplate<'b> {
    pub flags: TcpFlags,
    /// The peer's address.
    pub ip: Ipv4,
    /// Our port; chosen at random from the source range where absent.
    pub source_port: Option<u16>,
    /// The peer's port.
    pub port: u16,
    pub seq: u32,
    pub ack: u32,
    /// The payload, if any.
    pub body: Option<&'b [u8]>,
}

/// A segment to send, its payload as a sequence of bytes.
pub struct PacketSpec {
    pub flags: u8,
    pub ip: Ipv4,
    pub source_port: Option<u16>,
    pub port: u16,
    pub seq: u32,
    pub ack: u32,
    pub body: Option<Seq<u8>>,
}

impl<'b> View for PacketTemplate<'b> {
    type V = PacketSpec;

    open spec fn view(&self) -> PacketSpec {
        PacketSpec {
            flags: self.flags@,
            ip: self.ip,
            source_port: self.source_port,
            port: self.port,
            seq: self.seq,
            ack: self.ack,
            body: match self.body {
                Some(bytes) => Some(bytes@),
                None => None,
            },
        }
    }
}

impl<'b> PacketTemplate<'b> {
    pub fn new(
        flags: TcpFlags,
        ip: Ipv4,
        source_port: Option<u16>,
        port: u16,
        seq: u32,
        ack: u32,
        body: Option<&'b [u8]>,
    ) -> (t: Self)
        ensures
            t == (PacketTemplate { flags, ip, source_port, port, seq, ack, body }),
    {
        PacketTemplate { flags, ip, source_port, port, seq, ack, body }
    }
}

/// The sum of the 16-bit words of the IPv4 header that never change:
/// version and header length, total length 48, identification 1, flags,
/// TTL and protocol.
pub const IPV4_FIXED_SUM: u32 = 50487;

/// The length of a frame's headers: Ethernet, IPv4 and TCP with options.
pub const HEADERS_LEN: usize = 62;

/// The length of the TCP header with its options.
pub const TCP_HEADER_LEN: usize = 28;

/// The descriptor of the transmit frame `index` in an arena of frames of
/// `frame_size` bytes: its data starts after the metadata header, and it
/// has one. None where the address cannot be written in a `usize`.
pub fn tx_descriptor(index: u32, frame_size: u32) -> (desc: Option<Descriptor>)
    ensures
        desc == if index * frame_size + TX_METADATA_LEN <= usize::MAX {
            Some(
                Descriptor {
                    addr: (index * frame_size + TX_METADATA_LEN) as u64,
                    len: 0,
                    options: XDP_TX_METADATA,
                },
            )
        } else {
            None::<Descriptor>
        },
{
    assert(index * frame_size <= 0x1_0000_0000 * 0x1_0000_0000) by (nonlinear_arith)
        requires
            index <= 0x1_0000_0000,
            frame_size <= 0x1_0000_0000,
    ;
    let addr: u128 = (index as u128) * (frame_size as u128) + TX_METADATA_LEN as u128;
    if addr <= usize::MAX as u128 {
        Some(Descriptor { addr: addr as u64, len: 0, options: XDP_TX_METADATA })
    } else {
        None
    }
}

/// Copies `src` to `dst[at..]`.
fn put(dst: &mut [u8], at: usize, src: &[u8])
    requires
        at + src@.len() <= old(dst)@.len(),
    ensures
        final(dst)@ == laid(old(dst)@, at as int, src@),
{
    let room = dst.len();
    let mut i: usize = 0;
    while i < src.len()
        invariant
            i <= src@.len(),
            room == dst@.len(),
            at + src@.len() <= dst@.len(),
            dst@.len() == old(dst)@.len(),
            forall|k: int| 0 <= k < dst@.len() ==> dst@[k] == if at <= k < at + i {
                src@[k - at]
            } else {
                old(dst)@[k]
            },
        decreases src@.len() - i,
    {
        dst[at + i] = src[i];
        i += 1;
    }
    assert(dst@ =~= laid(old(dst)@, at as int, src@));
}

/// `bytes` with `part` laid over it from `at` on.
pub open spec fn laid(bytes: Seq<u8>, at: int, part: Seq<u8>) -> Seq<u8> {
    Seq::new(
        bytes.len(),
        |k: int|
            if at <= k < at + part.len() {
                part[k - at]
            } else {
                bytes[k]
            },
    )
}

/// The two bytes of a 16-bit number, high byte first.
pub open spec fn be16(v: u16) -> Seq<u8> {
    seq![(v / 0x100) as u8, (v % 0x100) as u8]
}

/// The four bytes of a 32-bit number, high byte first.
pub open spec fn be32(v: u32) -> Seq<u8> {
    octets_of(v)
}

fn be16_bytes(v: u16) -> (b: [u8; 2])
    ensures
        b@ == be16(v),
{
    let b: [u8; 2] = [(v / 0x100) as u8, (v % 0x100) as u8];
    assert(b@ =~= be16(v));
    b
}

/// A transmit frame made ready: the metadata header that asks for the TCP
/// checksum to be completed, then the frame template with the gateway as
/// destination, the interface as source and `source_ip` as source address.
pub open spec fn prepared(frame: Seq<u8>, gateway: Seq<u8>, interface: Seq<u8>, source_ip: Ipv4)
    -> Seq<u8> {
    let meta = header_bytes(
        TxMetadata {
            flags: XDP_TXMD_FLAGS_CHECKSUM as u64,
            rc: TxMetadataRc::Request(
                TxMetadataRequest { csum_start: CSUM_START, csum_offset: CSUM_OFFSET },
            ),
        },
    );
    let data = TX_METADATA_LEN as int;
    laid(
        laid(laid(laid(laid(frame, 0, meta), data, TCP_PACKET@), data, gateway), data + 6, interface),
        data + 26,
        octets_of(source_ip),
    )
}

/// Makes a transmit frame ready: see `prepared`. The rest of the frame stays
/// as it is.
pub fn prepare_frame(frame: &mut [u8], shared: &SharedData)
    requires
        old(frame)@.len() >= TX_METADATA_LEN + HEADERS_LEN,
    ensures
        final(frame)@ == prepared(
            old(frame)@,
            shared.gateway@,
            shared.interface@,
            shared.source_ip,
        ),
{
    let meta = TxMetadata::request(XDP_TXMD_FLAGS_CHECKSUM as u64, CSUM_START, CSUM_OFFSET);
    put(frame, 0, meta.to_bytes().as_slice());
    put(frame, TX_METADATA_LEN, TCP_PACKET.as_slice());
    put(frame, TX_METADATA_LEN, shared.gateway.as_octets().as_slice());
    put(frame, TX_METADATA_LEN + 6, shared.interface.as_octets().as_slice());
    put(frame, TX_METADATA_LEN + 26, octets(shared.source_ip).as_slice());
}

/// The length of a segment's payload.
pub open spec fn body_len(t: PacketSpec) -> nat {
    match t.body {
        Some(body) => body.len(),
        None => 0,
    }
}

/// Whether a segment fits: its frame into the room there is, and its length
/// into the 16 bits of the IPv4 header.
pub open spec fn fits(t: PacketSpec, room: nat) -> bool {
    HEADERS_LEN + body_len(t) <= room && 48 + body_len(t) <= 0xFFFF
}

/// The IPv4 header checksum of a segment from an address whose words sum to
/// `source_sum`: the one's complement of the folded sum of the header's
/// words.
pub open spec fn ipv4_checksum_of(t: PacketSpec, source_sum: int) -> u16 {
    (0xFFFF - ones_fold(
        IPV4_FIXED_SUM + source_sum + ipv4_sum_of(octets_of(t.ip)) + body_len(t),
    )) as u16
}

/// What the checksum field of the TCP header holds when the frame is handed
/// over: the folded sum of the pseudo header, which the NIC completes.
pub open spec fn tcp_partial_of(t: PacketSpec, source_sum: int) -> u16 {
    ones_fold(source_sum + ipv4_sum_of(octets_of(t.ip)) + 6 + TCP_HEADER_LEN + body_len(t)) as u16
}

/// The data of a frame once the segment `t` is written into it, from the
/// port `source_port`: total length, header checksum, destination address,
/// both ports, sequence and acknowledgment numbers, flags, the partial TCP
/// checksum, and the payload after the headers. Every other byte stays.
pub open spec fn written(data: Seq<u8>, t: PacketSpec, source_port: u16, source_sum: int) -> Seq<u8> {
    let with_headers = laid(
        laid(
            laid(
                laid(
                    laid(
                        laid(
                            laid(
                                laid(
                                    laid(data, 47, seq![t.flags]),
                                    30,
                                    octets_of(t.ip),
                                ),
                                34,
                                be16(source_port),
                            ),
                            36,
                            be16(t.port),
                        ),
                        38,
                        be32(t.seq),
                    ),
                    42,
                    be32(t.ack),
                ),
                16,
                be16((48 + body_len(t)) as u16),
            ),
            24,
            be16(ipv4_checksum_of(t, source_sum)),
        ),
        50,
        be16(tcp_partial_of(t, source_sum)),
    );
    match t.body {
        Some(body) => laid(with_headers, HEADERS_LEN as int, body),
        None => with_headers,
    }
}

/// The length of the frame that the segment `template` makes, if it fits
/// into `room` bytes and its length into the 16 bits of the IPv4 header.
pub fn frame_len(template: &PacketTemplate, room: usize) -> (len: Option<u32>)
    ensures
        match len {
            Some(n) => fits(template@, room as nat) && n == HEADERS_LEN + body_len(template@),
            None => !fits(template@, room as nat),
        },
{
    let data_len: usize = match template.body {
        Some(body) => body.len(),
        None => 0,
    };
    if room < HEADERS_LEN || data_len > room - HEADERS_LEN || data_len > 0xFFFF - 48 {
        None
    } else {
        Some((HEADERS_LEN + data_len) as u32)
    }
}

/// Writes the segment `template` into the data of a prepared frame, from
/// the port `source_port`. Hands back the length of the frame, or nothing,
/// and leaves the frame as it is, where the segment does not fit.
pub fn write_packet(
    data: &mut [u8],
    template: &PacketTemplate,
    source_port: u16,
    source_ip_sum: u32,
) -> (len: Option<u32>)
    requires
        source_ip_sum <= 0x1_FFFE,
    ensures
        match len {
            Some(n) => fits(template@, old(data)@.len()) && n == HEADERS_LEN + body_len(template@)
                && final(data)@ == written(old(data)@, template@, source_port, source_ip_sum as int),
            None => !fits(template@, old(data)@.len()) && final(data)@ == old(data)@,
        },
{
    let Some(len) = frame_len(template, data.len()) else {
        return None;
    };
    let data_len: usize = len as usize - HEADERS_LEN;
    let ip = octets(template.ip);
    let flags: [u8; 1] = [template.flags.bits()];
    put(data, 47, flags.as_slice());
    put(data, 30, ip.as_slice());
    put(data, 34, be16_bytes(source_port).as_slice());
    put(data, 36, be16_bytes(template.port).as_slice());
    put(data, 38, octets(template.seq).as_slice());
    put(data, 42, octets(template.ack).as_slice());
    let dest_sum = ipv4_sum(&ip);
    let ipv4_checksum = finalize_checksum(
        IPV4_FIXED_SUM + source_ip_sum + dest_sum + data_len as u32,
    );
    put(data, 16, be16_bytes(48 + data_len as u16).as_slice());
    put(data, 24, be16_bytes(ipv4_checksum).as_slice());
    put(
        data,
        50,
        be16_bytes(raw_partial(source_ip_sum + dest_sum, TCP_HEADER_LEN + data_len)).as_slice(),
    );
    if let Some(body) = template.body {
        put(data, HEADERS_LEN, body);
    }
    Some(len)
}

/// `rand_xorshift::XorShiftRng`: a random number generator. Nothing of its
/// inside is known here.
#[verifier::external_type_specification]
#[verifier::external_body]
pub struct ExXorShiftRng(XorShiftRng);

/// `XorShiftRng::from_seed` on a seed from `rand::random`: a generator in
/// some state.
#[verifier::external_body]
fn port_rng() -> XorShiftRng {
    XorShiftRng::from_seed(rand::random())
}

/// `Rng::random_range` over `lo..=hi`, which is not empty: some port of the
/// range.
#[verifier::external_body]
fn pick_port(rng: &mut XorShiftRng, lo: u16, hi: u16) -> (port: u16)
    requires
        lo <= hi,
    ensures
        lo <= port <= hi,
{
    rng.random_range(lo..=hi)
}

/// The port a frame's data names as the TCP source.
pub open spec fn source_port_in(data: Seq<u8>) -> u16 {
    (data[34] * 0x100 + data[35]) as u16
}

/// Writes segments into transmit frames, from a port drawn at random where
/// the segment names none.
pub struct Sender {
    source_ip_sum: u32,
    shared: SharedData,
    rng: XorShiftRng,
}

impl Sender {
    /// The context of the session.
    pub closed spec fn spec_shared(&self) -> SharedData {
        self.shared
    }

    /// The sum of the words of the source address.
    pub closed spec fn source_sum(&self) -> int {
        self.source_ip_sum as int
    }

    /// The source ports are a range that is not empty, and the sum kept is
    /// that of the source address.
    pub open spec fn wf(&self) -> bool {
        &&& self.spec_shared().source_port_range.0 <= self.spec_shared().source_port_range.1
        &&& self.source_sum() == ipv4_sum_of(octets_of(self.spec_shared().source_ip))
    }

    pub fn new(shared: SharedData) -> (s: Self)
        requires
            shared.source_port_range.0 <= shared.source_port_range.1,
        ensures
            s.wf(),
            s.spec_shared() == shared,
    {
        let source_ip_sum = ipv4_sum(&octets(shared.source_ip));
        Sender { source_ip_sum, shared, rng: port_rng() }
    }

    /// The context of the session.
    pub fn shared(&self) -> (s: &SharedData)
        ensures
            *s == self.spec_shared(),
    {
        &self.shared
    }

    /// Writes the segment `template` into the data of a prepared frame and
    /// hands back the frame's length; or nothing, leaving the frame as it
    /// is, where the segment does not fit. A segment that names no source
    /// port gets one of the session's range.
    pub fn fill(&mut self, data: &mut [u8], template: &PacketTemplate) -> (len: Option<u32>)
        requires
            old(self).wf(),
        ensures
            final(self).wf(),
            final(self).spec_shared() == old(self).spec_shared(),
            match len {
                Some(n) => {
                    let port = match template.source_port {
                        Some(p) => p,
                        None => source_port_in(final(data)@),
                    };
                    &&& fits(template@, old(data)@.len())
                    &&& n == HEADERS_LEN + body_len(template@)
                    &&& final(data)@ == written(old(data)@, template@, port, old(self).source_sum())
                    &&& template.source_port.is_none() ==> old(
                        self,
                    ).spec_shared().source_port_range.0 <= port <= old(
                        self,
                    ).spec_shared().source_port_range.1
                },
                None => !fits(template@, old(data)@.len()) && final(data)@ == old(data)@,
            },
    {
        let port = match template.source_port {
            Some(p) => p,
            None => pick_port(
                &mut self.rng,
                self.shared.source_port_range.0,
                self.shared.source_port_range.1,
            ),
        };
        let len = write_packet(data, template, port, self.source_ip_sum);
        proof {
            if len.is_some() {
                lemma_source_port_written(old(data)@, template@, port, self.source_ip_sum as int);
            }
        }
        len
    }
}

/// A frame names the source port that was written into it.
pub proof fn lemma_source_port_written(data: Seq<u8>, t: PacketSpec, port: u16, source_sum: int)
    requires
        fits(t, data.len()),
    ensures
        source_port_in(written(data, t, port, source_sum)) == port,
{
    let w = written(data, t, port, source_sum);
    assert(w[34] == be16(port)[0]);
    assert(w[35] == be16(port)[1]);
}

} // verus!
