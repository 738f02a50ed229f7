//! The responder: what to do with one received frame, given what is known
//! of the peer that sent it.

use crate::controller::connections::{
    decayed_from, held, table_get_mut, table_insert, table_new, table_remove, Connections, Peer,
    State, StateView, MAX_TIMEOUT_SECS,
};
use crate::controller::protocol::{ParseError, Parser, Payload, PayloadError};
use crate::controller::sender::{PacketSpec, PacketTemplate};
use crate::net::tcp::{
    cookie, cookie_value, Ipv4, TcpFlags, ACK_BIT, FIN_BIT, PSH_BIT, RST_BIT, SYN_BIT,
};
use vstd::prelude::*;

verus! {

/// The fields of a received TCP segment that the responder reads.
#[derive(Clone, Copy, Debug)]
pub struct Segment {
    /// The peer's address: the IPv4 source.
    pub ip: Ipv4,
    /// The peer's port: the TCP source port.
    pub port: u16,
    /// Our port: the TCP destination port.
    pub dest_port: u16,
    pub seq: u32,
    pub ack: u32,
    pub flags: TcpFlags,
    /// Where the payload starts in the frame, going by the TCP data offset.
    pub payload_start: usize,
}

/// The 16-bit number at `i`, high byte first.
pub open spec fn be16_at(frame: Seq<u8>, i: int) -> u16 {
    (frame[i] * 0x100 + frame[i + 1]) as u16
}

/// The 32-bit number at `i`, high byte first.
pub open spec fn be32_at(frame: Seq<u8>, i: int) -> u32 {
    (frame[i] * 0x100_0000 + frame[i + 1] * 0x1_0000 + frame[i + 2] * 0x100 + frame[i + 3]) as u32
}

/// Where the TCP header starts: after 14 bytes of Ethernet and the IPv4
/// header, whose length in 32-bit words is the low nibble of its first byte.
pub open spec fn tcp_start_of(frame: Seq<u8>) -> int {
    14 + (frame[14] % 16) * 4
}

/// The segment a frame carries, if the frame is long enough to hold the
/// IPv4 addresses and the first 14 bytes of the TCP header.
pub open spec fn segment_of(frame: Seq<u8>) -> Option<Segment> {
    if frame.len() < 30 || frame.len() < tcp_start_of(frame) + 14 {
        None
    } else {
        let t = tcp_start_of(frame);
        Some(
            Segment {
                ip: be32_at(frame, 26),
                port: be16_at(frame, t),
                dest_port: be16_at(frame, t + 2),
                seq: be32_at(frame, t + 4),
                ack: be32_at(frame, t + 8),
                flags: TcpFlags { bits: frame[t + 13] },
                payload_start: (t + (frame[t + 12] / 16) * 4) as usize,
            },
        )
    }
}

fn read_be16(frame: &[u8], i: usize) -> (r: u16)
    requires
        i + 2 <= frame@.len(),
    ensures
        r == be16_at(frame@, i as int),
{
    (frame[i] as u16) * 0x100 + (frame[i + 1] as u16)
}

fn read_be32(frame: &[u8], i: usize) -> (r: u32)
    requires
        i + 4 <= frame@.len(),
    ensures
        r == be32_at(frame@, i as int),
{
    (frame[i] as u32) * 0x100_0000 + (frame[i + 1] as u32) * 0x1_0000 + (frame[i + 2] as u32)
        * 0x100 + (frame[i + 3] as u32)
}

/// Reads the segment out of a received frame. A frame too short for its own
/// headers carries none.
pub fn read_segment(frame: &[u8]) -> (s: Option<Segment>)
    ensures
        s == segment_of(frame@),
{
    if frame.len() < 30 {
        return None;
    }
    let t: usize = 14 + ((frame[14] % 16) as usize) * 4;
    if frame.len() < t + 14 {
        return None;
    }
    Some(
        Segment {
            ip: read_be32(frame, 26),
            port: read_be16(frame, t),
            dest_port: read_be16(frame, t + 2),
            seq: read_be32(frame, t + 4),
            ack: read_be32(frame, t + 8),
            flags: TcpFlags::from_bits_retain(frame[t + 13]),
            payload_start: t + ((frame[t + 12] / 16) as usize) * 4,
        },
    )
}

/// What the responder does with one frame: at most one segment to send, and
/// a banner where the peer's answer is complete.
pub struct Reaction<'b, O> {
    pub packet: Option<PacketTemplate<'b>>,
    pub banner: Option<O>,
}

/// The whole effect of one frame: the peer's connection state afterwards,
/// the segment sent and the banner found.
pub struct Outcome<O> {
    pub conn: Option<StateView>,
    pub packet: Option<PacketSpec>,
    pub banner: Option<O>,
}

/// A segment back to the sender of `seg`, from the port it wrote to.
pub open spec fn reply(seg: Segment, flags: u8, seq: u32, ack: u32, body: Option<Seq<u8>>)
    -> PacketSpec {
    PacketSpec { flags, ip: seg.ip, source_port: Some(seg.dest_port), port: seg.port, seq, ack, body }
}

/// The acknowledgment that a SYN-ACK must carry to be ours.
pub open spec fn expected_syn_ack(ip: Ipv4, port: u16, seed: u64) -> u32 {
    (cookie_value(ip, port, seed) as u32).wrapping_add(1)
}

/// The state of a connection whose request of `len` bytes just went out in
/// answer to a SYN-ACK that acknowledged `ack`.
pub open spec fn opened(ack: u32, len: nat) -> StateView {
    StateView {
        data: Seq::empty(),
        next_seq: None,
        next_expected_seq: 0,
        next_expected_ack: Some(ack.wrapping_add(len as u32)),
        fin_sent: false,
    }
}

/// A frame that moves nothing: `seen` stays, nothing is sent.
pub open spec fn ignored<O>(seen: Option<StateView>) -> Outcome<O> {
    Outcome { conn: seen, packet: None, banner: None }
}

/// A FIN from the peer. Unknown peer: a bare ACK closes politely. Known peer
/// that never sent data: nothing. Otherwise our FIN|ACK the first time and a
/// bare ACK after that; the connection is forgotten once it holds data.
pub open spec fn on_fin_spec<O>(seen: Option<StateView>, seg: Segment) -> Outcome<O> {
    match seen {
        None => Outcome {
            conn: None,
            packet: Some(reply(seg, ACK_BIT, seg.ack, seg.seq.wrapping_add(1), None)),
            banner: None,
        },
        Some(state) => match state.next_seq {
            None => ignored(seen),
            Some(next_seq) => Outcome {
                conn: if state.data.len() > 0 {
                    None
                } else {
                    Some(StateView { fin_sent: true, ..state })
                },
                packet: Some(
                    reply(
                        seg,
                        if state.fin_sent {
                            ACK_BIT
                        } else {
                            FIN_BIT | ACK_BIT
                        },
                        next_seq,
                        seg.seq.wrapping_add(1),
                        None,
                    ),
                ),
                banner: None,
            },
        },
    }
}

/// A SYN-ACK. One that does not acknowledge our cookie plus one moves
/// nothing. Otherwise the request goes out as PSH|ACK, its sequence number
/// the cookie itself, and the connection opens; where no request can be
/// built, a RST goes out instead.
pub open spec fn on_syn_ack_spec<O>(
    seen: Option<StateView>,
    seg: Segment,
    seed: u64,
    built: Option<Seq<u8>>,
) -> Outcome<O> {
    if seg.ack != expected_syn_ack(seg.ip, seg.port, seed) {
        ignored(seen)
    } else {
        match built {
            None => Outcome {
                conn: seen,
                packet: Some(reply(seg, RST_BIT, seg.ack, seg.seq.wrapping_add(1), None)),
                banner: None,
            },
            Some(request) => Outcome {
                conn: Some(opened(seg.ack, request.len())),
                packet: Some(
                    reply(
                        seg,
                        PSH_BIT | ACK_BIT,
                        cookie_value(seg.ip, seg.port, seed) as u32,
                        seg.seq.wrapping_add(1),
                        Some(request),
                    ),
                ),
                banner: None,
            },
        }
    }
}

/// The payload of the segment in `frame`, where the data offset lies inside
/// the frame.
pub open spec fn payload_of(frame: Seq<u8>, seg: Segment) -> Option<Seq<u8>> {
    if seg.payload_start <= frame.len() {
        Some(frame.subrange(seg.payload_start as int, frame.len() as int))
    } else {
        None
    }
}

/// The state after `payload` arrived in order with acknowledgment `ack`.
pub open spec fn gathered(state: StateView, seg: Segment, payload: Seq<u8>) -> StateView {
    StateView {
        data: state.data + payload,
        next_seq: Some(seg.ack),
        next_expected_seq: seg.seq.wrapping_add(payload.len() as u32),
        next_expected_ack: None,
        fin_sent: state.fin_sent,
    }
}

/// Whether an ACK is in order for a connection in state `state`: its
/// payload lies inside the frame, and it carries the acknowledgment the
/// connection waits for or, where it waits for none, the sequence number
/// expected next.
pub open spec fn ack_accepted(state: StateView, seg: Segment, payload: Option<Seq<u8>>) -> bool {
    &&& payload.is_some()
    &&& match state.next_expected_ack {
        Some(expected) => seg.ack == expected,
        None => seg.seq == state.next_expected_seq,
    }
}

/// What an ACK that is not in order does: nothing, unless the connection
/// waits for no acknowledgment and the payload lies inside the frame; then
/// the last ACK goes out again (with FIN, if ours was sent).
pub open spec fn ack_refused<O>(state: StateView, seg: Segment, payload: Option<Seq<u8>>)
    -> Outcome<O> {
    if payload.is_some() && state.next_expected_ack.is_none() {
        Outcome {
            conn: Some(state),
            packet: Some(
                reply(
                    seg,
                    if state.fin_sent {
                        FIN_BIT | ACK_BIT
                    } else {
                        ACK_BIT
                    },
                    seg.ack,
                    state.next_expected_seq,
                    None,
                ),
            ),
            banner: None,
        }
    } else {
        ignored(Some(state))
    }
}

/// What becomes of a connection whose gathered bytes the parser has seen,
/// `next` being its state with these bytes. A banner: our FIN|ACK goes out
/// and the banner is handed on. Invalid: the connection is forgotten.
/// Incomplete: a bare ACK asks for more.
pub open spec fn concluded<O>(next: StateView, seg: Segment, parsed: Result<O, ParseError>)
    -> Outcome<O> {
    match parsed {
        Ok(banner) => Outcome {
            conn: Some(StateView { fin_sent: true, ..next }),
            packet: Some(reply(seg, FIN_BIT | ACK_BIT, seg.ack, next.next_expected_seq, None)),
            banner: Some(banner),
        },
        Err(ParseError::Invalid) => Outcome { conn: None, packet: None, banner: None },
        Err(ParseError::Incomplete) => Outcome {
            conn: Some(next),
            packet: Some(reply(seg, ACK_BIT, seg.ack, next.next_expected_seq, None)),
            banner: None,
        },
    }
}

/// An ACK, with or without data, from a known peer in state `state`:
/// where it is in order, its payload is gathered and the parser asked, whose
/// answer is `parsed`.
pub open spec fn on_ack_known<O>(
    state: StateView,
    seg: Segment,
    payload: Option<Seq<u8>>,
    parsed: Result<O, ParseError>,
) -> Outcome<O> {
    if ack_accepted(state, seg, payload) {
        concluded(gathered(state, seg, payload.unwrap()), seg, parsed)
    } else {
        ack_refused(state, seg, payload)
    }
}

/// An ACK. From an unknown peer it moves nothing.
pub open spec fn on_ack_spec<O>(
    seen: Option<StateView>,
    seg: Segment,
    payload: Option<Seq<u8>>,
    parsed: Result<O, ParseError>,
) -> Outcome<O> {
    match seen {
        None => ignored(seen),
        Some(state) => on_ack_known(state, seg, payload, parsed),
    }
}

/// The responder's transition: what the segment `seg` of `frame` does to a
/// peer in state `seen` (`None`: unknown or forgotten), where `built` is
/// the request for the peer, if one can be built, and `parsed` what the
/// parser makes of the bytes gathered. RST goes before FIN, FIN before
/// SYN-ACK, SYN-ACK before ACK; a segment with none of these moves nothing.
pub open spec fn react<O>(
    seen: Option<StateView>,
    seg: Segment,
    frame: Seq<u8>,
    seed: u64,
    built: Option<Seq<u8>>,
    parsed: Result<O, ParseError>,
) -> Outcome<O> {
    if seg.flags@ & RST_BIT != 0 {
        ignored(seen)
    } else if seg.flags@ & FIN_BIT != 0 {
        on_fin_spec(seen, seg)
    } else if seg.flags@ & (SYN_BIT | ACK_BIT) == (SYN_BIT | ACK_BIT) {
        on_syn_ack_spec(seen, seg, seed, built)
    } else if seg.flags@ & ACK_BIT != 0 {
        on_ack_spec(seen, seg, payload_of(frame, seg), parsed)
    } else {
        ignored(seen)
    }
}

/// The view of a segment to send, if there is one.
pub open spec fn sent<'b>(packet: Option<PacketTemplate<'b>>) -> Option<PacketSpec> {
    match packet {
        Some(p) => Some(p@),
        None => None,
    }
}

/// The payload of a segment sent, if it has one.
pub open spec fn body_sent(packet: Option<PacketSpec>) -> Option<Seq<u8>> {
    match packet {
        Some(p) => p.body,
        None => None,
    }
}

fn answer<'b>(seg: &Segment, flags: TcpFlags, seq: u32, ack: u32, body: Option<&'b [u8]>) -> (p:
    PacketTemplate<'b>)
    ensures
        p@ == reply(
            *seg,
            flags@,
            seq,
            ack,
            match body {
                Some(bytes) => Some(bytes@),
                None => None,
            },
        ),
{
    PacketTemplate::new(flags, seg.ip, Some(seg.dest_port), seg.port, seq, ack, body)
}

/// A FIN from a peer whose connection is `state`. Hands back the segment to
/// send, if any, and whether the connection is to be forgotten.
pub fn fin_known<'b>(state: &mut State, seg: &Segment) -> (r: (Option<PacketTemplate<'b>>, bool))
    ensures
        sent(r.0) == on_fin_spec::<()>(Some(old(state)@), *seg).packet,
        r.1 == on_fin_spec::<()>(Some(old(state)@), *seg).conn.is_none(),
        !r.1 ==> Some(final(state)@) == on_fin_spec::<()>(Some(old(state)@), *seg).conn,
{
    match state.next_seq {
        None => (None, false),
        Some(next_seq) => {
            let flags = if state.fin_sent {
                TcpFlags::ack()
            } else {
                state.fin_sent = true;
                TcpFlags::fin().union(TcpFlags::ack())
            };
            let packet = answer(seg, flags, next_seq, seg.seq.wrapping_add(1), None);
            (Some(packet), state.data.len() > 0)
        },
    }
}

/// An ACK from a peer whose connection is `state`, carried by `frame`:
/// where it is in order, gathers its payload and says so; where not, hands
/// back the segment to send, if any, and leaves the connection as it is.
pub fn ack_gather<'b>(state: &mut State, seg: &Segment, frame: &[u8]) -> (r: (
    Option<PacketTemplate<'b>>,
    bool,
))
    ensures
        r.1 == ack_accepted(old(state)@, *seg, payload_of(frame@, *seg)),
        r.1 ==> r.0.is_none() && final(state)@ == gathered(
            old(state)@,
            *seg,
            payload_of(frame@, *seg).unwrap(),
        ),
        !r.1 ==> final(state)@ == old(state)@ && sent(r.0) == ack_refused::<()>(
            old(state)@,
            *seg,
            payload_of(frame@, *seg),
        ).packet,
{
    if seg.payload_start > frame.len() {
        return (None, false);
    }
    let payload = &frame[seg.payload_start..frame.len()];
    match state.next_expected_ack {
        Some(expected) => {
            if seg.ack != expected {
                return (None, false);
            }
            state.next_expected_ack = None;
        },
        None => {
            if seg.seq != state.next_expected_seq {
                let flags = if state.fin_sent {
                    TcpFlags::fin().union(TcpFlags::ack())
                } else {
                    TcpFlags::ack()
                };
                let packet = answer(seg, flags, seg.ack, state.next_expected_seq, None);
                return (Some(packet), false);
            }
        },
    }
    state.data.extend_from_slice(payload);
    state.next_seq = Some(seg.ack);
    state.next_expected_seq = seg.seq.wrapping_add(#[verifier::truncate] (payload.len() as u32));
    assert(state.data@ =~= old(state)@.data + payload@);
    (None, true)
}

/// What follows the parser's answer `parsed` on the bytes gathered in
/// `state`. Hands back the segment to send, the banner if there is one, and
/// whether the connection is to be forgotten.
pub fn ack_conclude<'b, O>(state: &mut State, seg: &Segment, parsed: Result<O, ParseError>) -> (r: (
    Option<PacketTemplate<'b>>,
    Option<O>,
    bool,
))
    ensures
        sent(r.0) == concluded(old(state)@, *seg, parsed).packet,
        r.1 == concluded(old(state)@, *seg, parsed).banner,
        r.2 == concluded(old(state)@, *seg, parsed).conn.is_none(),
        !r.2 ==> Some(final(state)@) == concluded(old(state)@, *seg, parsed).conn,
{
    match parsed {
        Ok(banner) => {
            state.fin_sent = true;
            let flags = TcpFlags::fin().union(TcpFlags::ack());
            let packet = answer(seg, flags, seg.ack, state.next_expected_seq, None);
            (Some(packet), Some(banner), false)
        },
        Err(ParseError::Invalid) => (None, None, true),
        Err(ParseError::Incomplete) => {
            let packet = answer(seg, TcpFlags::ack(), seg.ack, state.next_expected_seq, None);
            (Some(packet), None, false)
        },
    }
}

/// What follows a SYN-ACK that acknowledges the peer's cookie `cookie` plus
/// one, `built` being the request for the peer or why there is none. Hands
/// back the segment to send and the state of the connection it opens, if it
/// opens one. The request goes out with the cookie as its sequence number.
pub fn syn_ack_open<'b>(seg: &Segment, cookie: u32, built: Result<&'b [u8], PayloadError>) -> (r: (
    PacketTemplate<'b>,
    Option<State>,
))
    ensures
        match built {
            Ok(request) => r.0@ == reply(
                *seg,
                PSH_BIT | ACK_BIT,
                cookie,
                seg.seq.wrapping_add(1),
                Some(request@),
            ) && r.1.is_some() && r.1.unwrap()@ == opened(seg.ack, request@.len()),
            Err(_) => r.0@ == reply(*seg, RST_BIT, seg.ack, seg.seq.wrapping_add(1), None)
                && r.1.is_none(),
        },
{
    match built {
        Err(_) => {
            let packet = answer(seg, TcpFlags::rst(), seg.ack, seg.seq.wrapping_add(1), None);
            (packet, None)
        },
        Ok(request) => {
            let flags = TcpFlags::psh().union(TcpFlags::ack());
            let packet = answer(seg, flags, cookie, seg.seq.wrapping_add(1), Some(request));
            let state = State {
                data: Vec::new(),
                next_seq: None,
                next_expected_seq: 0,
                next_expected_ack: Some(
                    seg.ack.wrapping_add(#[verifier::truncate] (request.len() as u32)),
                ),
                fin_sent: false,
            };
            assert(state@.data =~= Seq::<u8>::empty());
            (packet, Some(state))
        },
    }
}

/// Whether `built` is something that `payload` may answer when asked for the
/// request for `ip:port`.
pub open spec fn builds<'b, PA: Payload>(
    payload: &'b PA,
    ip: Ipv4,
    port: u16,
    built: Result<&'b [u8], PayloadError>,
) -> bool {
    call_ensures(PA::build, (payload, ip, port), built)
}

/// Whether `parsed` is something that `parser` may answer when asked about
/// the bytes `data` from `ip:port`.
pub open spec fn parses<P: Parser>(
    parser: &P,
    ip: Ipv4,
    port: u16,
    data: &[u8],
    parsed: Result<P::Output, ParseError>,
) -> bool {
    call_ensures(P::parse, (parser, ip, port, data), parsed)
}

/// The bytes of a request that was built, if one was.
pub open spec fn request_of<'b>(built: Result<&'b [u8], PayloadError>) -> Option<Seq<u8>> {
    match built {
        Ok(request) => Some(request@),
        Err(_) => None,
    }
}

/// A SYN-ACK. Hands back the segment to send, if any, and the state of the
/// connection it opens, if it opens one. One that does not acknowledge our
/// cookie plus one gets nothing, and the payload is not asked. For any
/// other the payload is asked for the request for the peer; what it answers
/// goes out as `on_syn_ack_spec` says: the request, or a RST where there is
/// none.
pub fn syn_ack<'b, PA: Payload>(payload: &'b PA, seg: &Segment, seed: u64) -> (r: (
    Option<PacketTemplate<'b>>,
    Option<State>,
))
    ensures
        ({
            let out = on_syn_ack_spec::<()>(None, *seg, seed, body_sent(sent(r.0)));
            &&& sent(r.0) == out.packet
            &&& match r.1 {
                Some(state) => out.conn == Some(state@),
                None => out.conn.is_none(),
            }
        }),
        seg.ack == expected_syn_ack(seg.ip, seg.port, seed) ==> exists|
            built: Result<&'b [u8], PayloadError>,
        | #[trigger]
            builds(payload, seg.ip, seg.port, built) && request_of(built) == body_sent(sent(r.0)),
{
    let peer_cookie = cookie(seg.ip, seg.port, seed);
    if seg.ack != peer_cookie.wrapping_add(1) {
        return (None, None);
    }
    let built = payload.build(seg.ip, seg.port);
    assert(builds(payload, seg.ip, seg.port, built));
    let (packet, state) = syn_ack_open(seg, peer_cookie, built);
    (Some(packet), state)
}

/// The state of `peer` in a table, if it has one.
pub open spec fn state_of(table: Map<Peer, State>, peer: Peer) -> Option<StateView> {
    if table.dom().contains(peer) {
        Some(table[peer]@)
    } else {
        None
    }
}

/// Whether the segment is a SYN-ACK that acknowledges our cookie plus one:
/// the one case in which the payload is asked for a request.
pub open spec fn wants_request(seg: Segment, seed: u64) -> bool {
    &&& seg.flags@ & RST_BIT == 0
    &&& seg.flags@ & FIN_BIT == 0
    &&& seg.flags@ & (SYN_BIT | ACK_BIT) == (SYN_BIT | ACK_BIT)
    &&& seg.ack == expected_syn_ack(seg.ip, seg.port, seed)
}

/// Whether the segment is an ACK in order from a peer in state `state`: the
/// one case in which the parser is asked.
pub open spec fn wants_parse(state: StateView, seg: Segment, frame: Seq<u8>) -> bool {
    &&& seg.flags@ & RST_BIT == 0
    &&& seg.flags@ & FIN_BIT == 0
    &&& seg.flags@ & (SYN_BIT | ACK_BIT) != (SYN_BIT | ACK_BIT)
    &&& seg.flags@ & ACK_BIT != 0
    &&& ack_accepted(state, seg, payload_of(frame, seg))
}

/// Whether `out` is what the frame does to a peer in state `seen`:
/// - for a SYN-ACK with a valid cookie, `react` on what `payload` answered
///   when asked for the request for the peer;
/// - for an ACK in order, `react` on what `parser` answered when asked about
///   all the bytes gathered from the peer, these included;
/// - for any other segment, `react`, which then depends on neither.
pub open spec fn explains<'b, PA: Payload, P: Parser>(
    out: Outcome<P::Output>,
    seen: Option<StateView>,
    seg: Segment,
    frame: Seq<u8>,
    seed: u64,
    payload: &'b PA,
    parser: &P,
) -> bool {
    if wants_request(seg, seed) {
        exists|built: Result<&'b [u8], PayloadError>| #[trigger]
            builds(payload, seg.ip, seg.port, built) && out == react(
                seen,
                seg,
                frame,
                seed,
                request_of(built),
                Err::<P::Output, ParseError>(ParseError::Invalid),
            )
    } else if seen.is_some() && wants_parse(seen.unwrap(), seg, frame) {
        exists|data: &[u8], parsed: Result<P::Output, ParseError>| #[trigger]
            parses(parser, seg.ip, seg.port, data, parsed) && data@ == gathered(
                seen.unwrap(),
                seg,
                payload_of(frame, seg).unwrap(),
            ).data && out == react(seen, seg, frame, seed, None, parsed)
    } else {
        out == react(seen, seg, frame, seed, None, Err::<P::Output, ParseError>(ParseError::Invalid))
    }
}

/// Answers the peers of one receive queue: checks SYN cookies, sends the
/// request, gathers the answer and hands it to the parser.
pub struct Responder<'b, PA: Payload, P: Parser> {
    payload: &'b PA,
    parser: &'b P,
    seed: u64,
    connections: Connections,
}

impl<'b, PA: Payload, P: Parser> Responder<'b, PA, P> {
    /// The connections held.
    pub closed spec fn known(&self) -> Map<Peer, State> {
        held(self.connections)
    }

    /// The cookie seed of the session.
    pub closed spec fn seed(&self) -> u64 {
        self.seed
    }

    /// The request builder.
    pub closed spec fn payload(&self) -> &'b PA {
        self.payload
    }

    /// The parser.
    pub closed spec fn parser(&self) -> &'b P {
        self.parser
    }

    /// A responder without connections, whose connections decay after
    /// `ping_timeout_secs` seconds without a segment.
    pub fn new(payload: &'b PA, parser: &'b P, seed: u64, ping_timeout_secs: u64) -> (r: Self)
        requires
            ping_timeout_secs <= MAX_TIMEOUT_SECS,
        ensures
            r.known() == Map::<Peer, State>::empty(),
            r.seed() == seed,
            r.payload() == payload,
            r.parser() == parser,
    {
        Responder { payload, parser, seed, connections: table_new(ping_timeout_secs) }
    }

    /// Takes one received frame through the state machine. A frame too short
    /// for its headers moves nothing. Otherwise the outcome is what
    /// `explains` says of the state the table still held for the peer: its
    /// state before the frame, or none where it had none or it decayed. The
    /// payload is asked only for a SYN-ACK with a valid cookie, and the
    /// parser only about an ACK in order, with all the bytes gathered from
    /// the peer. Connections of other peers stay as they were, but for those
    /// that decayed.
    pub fn tick(&mut self, frame: &[u8]) -> (r: Reaction<'b, P::Output>)
        ensures
            final(self).seed() == old(self).seed(),
            final(self).payload() == old(self).payload(),
            final(self).parser() == old(self).parser(),
            match segment_of(frame@) {
                None => r.packet.is_none() && r.banner.is_none() && final(self).known() == old(
                    self,
                ).known(),
                Some(seg) => {
                    let peer = (seg.ip, seg.port);
                    let before = old(self).known();
                    let after = final(self).known();
                    let out = Outcome {
                        conn: state_of(after, peer),
                        packet: sent(r.packet),
                        banner: r.banner,
                    };
                    &&& decayed_from(after.remove(peer), before.remove(peer))
                    &&& (explains(
                        out,
                        None,
                        seg,
                        frame@,
                        old(self).seed(),
                        old(self).payload(),
                        old(self).parser(),
                    ) || (before.dom().contains(peer) && explains(
                        out,
                        Some(before[peer]@),
                        seg,
                        frame@,
                        old(self).seed(),
                        old(self).payload(),
                        old(self).parser(),
                    )))
                },
            },
    {
        let Some(seg) = read_segment(frame) else {
            return Reaction { packet: None, banner: None };
        };
        let peer = (seg.ip, seg.port);
        let ghost before = held(self.connections);
        assert(decayed_from(before.remove(peer), before.remove(peer)));
        if seg.flags.intersects(TcpFlags::rst()) {
            Reaction { packet: None, banner: None }
        } else if seg.flags.intersects(TcpFlags::fin()) {
            match table_get_mut(&mut self.connections, peer) {
                None => {
                    let packet = answer(
                        &seg,
                        TcpFlags::ack(),
                        seg.ack,
                        seg.seq.wrapping_add(1),
                        None,
                    );
                    Reaction { packet: Some(packet), banner: None }
                },
                Some(state) => {
                    let (packet, forget) = fin_known(state, &seg);
                    if forget {
                        let ghost touched = held(self.connections);
                        table_remove(&mut self.connections, peer);
                        proof {
                            lemma_decay_chain(held(self.connections), touched, before, peer);
                        }
                    }
                    Reaction { packet, banner: None }
                },
            }
        } else if seg.flags.contains(TcpFlags::syn().union(TcpFlags::ack())) {
            let (packet, opened) = syn_ack(self.payload, &seg, self.seed);
            if let Some(state) = opened {
                table_insert(&mut self.connections, peer, state);
            }
            Reaction { packet, banner: None }
        } else if seg.flags.intersects(TcpFlags::ack()) {
            match table_get_mut(&mut self.connections, peer) {
                None => Reaction { packet: None, banner: None },
                Some(state) => {
                    let (refusal, accepted) = ack_gather(state, &seg, frame);
                    if !accepted {
                        Reaction { packet: refusal, banner: None }
                    } else {
                        let data = state.data.as_slice();
                        let parsed = self.parser.parse(seg.ip, seg.port, data);
                        assert(parses(self.parser, seg.ip, seg.port, data, parsed));
                        let (packet, banner, forget) = ack_conclude(state, &seg, parsed);
                        if forget {
                            let ghost touched = held(self.connections);
                            table_remove(&mut self.connections, peer);
                            proof {
                                lemma_decay_chain(held(self.connections), touched, before, peer);
                            }
                        }
                        Reaction { packet, banner }
                    }
                },
            }
        } else {
            Reaction { packet: None, banner: None }
        }
    }
}

proof fn lemma_decay_chain(
    last: Map<Peer, State>,
    mid: Map<Peer, State>,
    first: Map<Peer, State>,
    peer: Peer,
)
    requires
        decayed_from(last, mid.remove(peer)),
        decayed_from(mid.remove(peer), first.remove(peer)),
        !last.dom().contains(peer),
    ensures
        decayed_from(last.remove(peer), first.remove(peer)),
{
    assert forall|p: Peer| #[trigger] last.remove(peer).dom().contains(p) implies first.remove(
        peer,
    ).dom().contains(p) && last.remove(peer)[p] == first.remove(peer)[p] by {
        assert(last.dom().contains(p));
        assert(mid.remove(peer).dom().contains(p));
    }
}

/// A SYN-ACK is accepted exactly when it acknowledges the cookie of its
/// sender plus one. Then one segment goes out that acknowledges the
/// SYN-ACK: the request as PSH|ACK, with the cookie itself as its sequence
/// number, and the connection opens awaiting the acknowledgment of the
/// request; or a RST where no request can be built. With any other
/// acknowledgment nothing is sent and nothing changes.
pub proof fn lemma_cookie_round_trip<O>(
    seen: Option<StateView>,
    seg: Segment,
    frame: Seq<u8>,
    seed: u64,
    built: Option<Seq<u8>>,
    parsed: Result<O, ParseError>,
)
    requires
        seg.flags@ == SYN_BIT | ACK_BIT,
    ensures
        seg.ack == (cookie_value(seg.ip, seg.port, seed) as u32).wrapping_add(1) ==> {
            let out = react(seen, seg, frame, seed, built, parsed);
            &&& out.packet.is_some()
            &&& out.packet.unwrap().ack == seg.seq.wrapping_add(1)
            &&& built.is_some() ==> out.packet.unwrap().flags == PSH_BIT | ACK_BIT
                && out.packet.unwrap().seq == cookie_value(seg.ip, seg.port, seed)
                && out.packet.unwrap().body == built && out.conn == Some(
                opened(seg.ack, built.unwrap().len()),
            )
            &&& built.is_none() ==> out.packet.unwrap().flags == RST_BIT && out.conn == seen
        },
        seg.ack != (cookie_value(seg.ip, seg.port, seed) as u32).wrapping_add(1) ==> react(
            seen,
            seg,
            frame,
            seed,
            built,
            parsed,
        ) == ignored::<O>(seen),
{
    let f = seg.flags@;
    assert(f & RST_BIT == 0 && f & FIN_BIT == 0 && f & (SYN_BIT | ACK_BIT) == (SYN_BIT | ACK_BIT))
        by (bit_vector)
        requires
            f == SYN_BIT | ACK_BIT,
    ;
}

/// The awaited ACK with a complete answer: for a connection that waits for
/// the acknowledgment `seg.ack` of its request, an ACK that carries it and
/// the payload `payload`, of which the parser makes a banner, gets one
/// FIN|ACK without payload, whose sequence number is that acknowledgment and
/// which acknowledges the payload; the banner is handed on, and the
/// connection stays, with the payload gathered and our FIN sent.
pub proof fn lemma_complete_answer<O>(
    state: StateView,
    seg: Segment,
    frame: Seq<u8>,
    seed: u64,
    payload: Seq<u8>,
    banner: O,
)
    requires
        seg.flags@ == ACK_BIT || seg.flags@ == PSH_BIT | ACK_BIT,
        state.next_expected_ack == Some(seg.ack) || (state.next_expected_ack.is_none() && seg.seq
            == state.next_expected_seq),
        payload_of(frame, seg) == Some(payload),
    ensures
        ({
            let out = react(Some(state), seg, frame, seed, None, Ok::<O, ParseError>(banner));
            &&& out.packet == Some(
                reply(
                    seg,
                    FIN_BIT | ACK_BIT,
                    seg.ack,
                    seg.seq.wrapping_add(payload.len() as u32),
                    None,
                ),
            )
            &&& out.banner == Some(banner)
            &&& out.conn == Some(
                StateView {
                    data: state.data + payload,
                    next_seq: Some(seg.ack),
                    next_expected_seq: seg.seq.wrapping_add(payload.len() as u32),
                    next_expected_ack: None,
                    fin_sent: true,
                },
            )
        }),
{
    lemma_plain_ack(seg.flags@);
}

/// An ACK in order with an answer that is not yet complete: the parser
/// finding the gathered bytes incomplete, one bare ACK goes out that
/// acknowledges the payload, no banner is handed on, and the connection
/// stays with the payload gathered, expecting the byte after it.
pub proof fn lemma_incomplete_answer<O>(
    state: StateView,
    seg: Segment,
    frame: Seq<u8>,
    seed: u64,
    payload: Seq<u8>,
)
    requires
        seg.flags@ == ACK_BIT || seg.flags@ == PSH_BIT | ACK_BIT,
        state.next_expected_ack == Some(seg.ack) || (state.next_expected_ack.is_none() && seg.seq
            == state.next_expected_seq),
        payload_of(frame, seg) == Some(payload),
    ensures
        ({
            let out = react(
                Some(state),
                seg,
                frame,
                seed,
                None,
                Err::<O, ParseError>(ParseError::Incomplete),
            );
            &&& out.packet == Some(
                reply(seg, ACK_BIT, seg.ack, seg.seq.wrapping_add(payload.len() as u32), None),
            )
            &&& out.banner.is_none()
            &&& out.conn == Some(
                StateView {
                    data: state.data + payload,
                    next_seq: Some(seg.ack),
                    next_expected_seq: seg.seq.wrapping_add(payload.len() as u32),
                    next_expected_ack: None,
                    fin_sent: state.fin_sent,
                },
            )
        }),
{
    lemma_plain_ack(seg.flags@);
}

/// The peer's FIN after ours: for a connection that holds data and whose
/// FIN we sent, a FIN from the peer gets one bare ACK whose sequence number
/// is our next one and which acknowledges the FIN; no banner is handed on,
/// and the connection is forgotten. Our FIN goes with the ACK only where we
/// had not sent it.
pub proof fn lemma_fin_after_answer<O>(
    state: StateView,
    seg: Segment,
    frame: Seq<u8>,
    seed: u64,
    built: Option<Seq<u8>>,
    parsed: Result<O, ParseError>,
    next_seq: u32,
)
    requires
        seg.flags@ == FIN_BIT || seg.flags@ == FIN_BIT | ACK_BIT,
        state.next_seq == Some(next_seq),
        state.data.len() > 0,
    ensures
        ({
            let out = react(Some(state), seg, frame, seed, built, parsed);
            &&& out.packet == Some(
                reply(
                    seg,
                    if state.fin_sent {
                        ACK_BIT
                    } else {
                        FIN_BIT | ACK_BIT
                    },
                    next_seq,
                    seg.seq.wrapping_add(1),
                    None,
                ),
            )
            &&& out.banner.is_none()
            &&& out.conn.is_none()
        }),
{
    let f = seg.flags@;
    assert(f & RST_BIT == 0 && f & FIN_BIT != 0) by (bit_vector)
        requires
            f == FIN_BIT || f == FIN_BIT | ACK_BIT,
    ;
}

proof fn lemma_plain_ack(f: u8)
    requires
        f == ACK_BIT || f == PSH_BIT | ACK_BIT,
    ensures
        f & RST_BIT == 0,
        f & FIN_BIT == 0,
        f & (SYN_BIT | ACK_BIT) != (SYN_BIT | ACK_BIT),
        f & ACK_BIT != 0,
{
    assert(f & RST_BIT == 0 && f & FIN_BIT == 0 && f & (SYN_BIT | ACK_BIT) != (SYN_BIT | ACK_BIT)
        && f & ACK_BIT != 0) by (bit_vector)
        requires
            f == ACK_BIT || f == PSH_BIT | ACK_BIT,
    ;
}

} // verus!
