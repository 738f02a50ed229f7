//! Minecraft Server List Ping: the handshake and status request that open
//! the conversation, and the framing of the status response.

use crate::controller::protocol::{ParseError, Parser, ParserKind};
use crate::net::tcp::Ipv4;
use core::marker::PhantomData;
use vstd::prelude::*;
use vstd::string::StringSliceAdditionalSpecFns;

verus! {

/// The bytes of a VarInt: seven bits each, lowest first, the high bit set on
/// all but the last.
pub open spec fn varint_of(v: u32) -> Seq<u8>
    decreases v,
{
    if v < 128 {
        seq![v as u8]
    } else {
        seq![(v % 128 + 128) as u8] + varint_of(v / 128)
    }
}

/// The bytes of a signed number as a VarInt: those of its 32 bits read as
/// unsigned.
pub open spec fn varint(value: i32) -> Seq<u8> {
    varint_of(value as u32)
}

/// Appends `value` as a VarInt.
pub fn write_varint(writer: &mut Vec<u8>, value: i32)
    ensures
        final(writer)@ == old(writer)@ + varint(value),
{
    let mut v: u32 = #[verifier::truncate]
    (value as u32);
    let ghost start = writer@;
    let ghost whole = varint_of(v);
    while v >= 128
        invariant
            writer@ + varint_of(v) == start + whole,
        decreases v,
    {
        let ghost before = writer@;
        writer.push((v % 128 + 128) as u8);
        assert((before + seq![(v % 128 + 128) as u8]) + varint_of(v / 128) =~= before + varint_of(
            v,
        ));
        v = v / 128;
    }
    let ghost before = writer@;
    writer.push(v as u8);
    assert(before + seq![v as u8] =~= before + varint_of(v));
}

/// The number so far with the low seven bits of the `i`-th byte put in
/// place.
pub open spec fn varint_step(acc: u32, b: u8, i: nat) -> u32 {
    acc | (((b & 0x7f) as u32) << ((7 * i) as u32))
}

/// The VarInt read from position `pos` on, byte number `i` of it being the
/// next, with the number it ends at and the position after it. A VarInt ends
/// with the first byte whose high bit is clear, and after five bytes at the
/// latest. Without a byte to read it is incomplete.
pub open spec fn varint_at(data: Seq<u8>, pos: int, i: nat, acc: u32) -> Result<
    (i32, int),
    ParseError,
>
    decreases 5 - i,
{
    if i >= 5 {
        Ok((acc as i32, pos))
    } else if pos < 0 || pos >= data.len() {
        Err(ParseError::Incomplete)
    } else {
        let next = varint_step(acc, data[pos], i);
        if data[pos] & 0x80 == 0 {
            Ok((next as i32, pos + 1))
        } else {
            varint_at(data, pos + 1, i + 1, next)
        }
    }
}

/// Reads a VarInt at `pos`: the number and the position after it.
pub fn read_varint(data: &[u8], pos: usize) -> (r: Result<(i32, usize), ParseError>)
    ensures
        match r {
            Ok((value, next)) => varint_at(data@, pos as int, 0, 0) == Ok::<
                (i32, int),
                ParseError,
            >((value, next as int)) && pos < next <= data@.len(),
            Err(e) => varint_at(data@, pos as int, 0, 0) == Err::<(i32, int), ParseError>(e),
        },
{
    let mut ans: u32 = 0;
    let mut at: usize = pos;
    let mut i: u32 = 0;
    while i < 5
        invariant
            i <= 5,
            at == pos + i,
            i > 0 ==> at <= data@.len(),
            varint_at(data@, pos as int, 0, 0) == varint_at(data@, at as int, i as nat, ans),
        decreases 5 - i,
    {
        if at >= data.len() {
            return Err(ParseError::Incomplete);
        }
        let b = data[at];
        ans = ans | (((b & 0x7f) as u32) << (7 * i));
        at += 1;
        if b & 0x80 == 0 {
            return Ok((#[verifier::truncate] (ans as i32), at));
        }
        i += 1;
    }
    Ok((#[verifier::truncate] (ans as i32), at))
}

/// Whether `u` is what is left of a 32-bit number after `i` bytes of seven
/// bits each have been taken off it.
pub open spec fn left_after(u: u32, i: nat) -> bool {
    i == 0 || (i == 1 && u < 0x200_0000) || (i == 2 && u < 0x4_0000) || (i == 3 && u < 0x800) || (
    i == 4 && u < 0x10)
}

proof fn lemma_varint_read(data: Seq<u8>, pos: int, i: nat, acc: u32, u: u32)
    requires
        0 <= pos,
        left_after(u, i),
        pos + varint_of(u).len() <= data.len(),
        data.subrange(pos, pos + varint_of(u).len()) == varint_of(u),
    ensures
        varint_at(data, pos, i, acc) == Ok::<(i32, int), ParseError>(
            ((acc | (u << ((7 * i) as u32))) as i32, pos + varint_of(u).len()),
        ),
    decreases u,
{
    let bytes = varint_of(u);
    let shift = (7 * i) as u32;
    let b = data[pos];
    assert(b == bytes[0]) by {
        assert(data.subrange(pos, pos + bytes.len())[0] == data[pos]);
    }
    if u < 128 {
        assert(b & 0x80 == 0 && (b & 0x7f) as u32 == u) by (bit_vector)
            requires
                u < 128,
                b == u as u8,
        ;
    } else {
        let rest = u / 128;
        assert(b & 0x80 != 0 && (b & 0x7f) as u32 == u % 128) by (bit_vector)
            requires
                u >= 128,
                b == (u % 128 + 128) as u8,
        ;
        let next = varint_step(acc, b, i);
        assert(left_after(rest, i + 1));
        assert(bytes.skip(1) =~= varint_of(rest));
        let window = data.subrange(pos, pos + bytes.len());
        let inner = data.subrange(pos + 1, pos + 1 + varint_of(rest).len());
        assert(inner =~= window.skip(1));
        lemma_varint_read(data, pos + 1, i + 1, next, rest);
        let low = u % 128;
        if i == 0 {
            assert((acc | (low << 0u32)) | (rest << 7u32) == acc | (u << 0u32)) by (bit_vector)
                requires
                    low == u % 128,
                    rest == u / 128,
            ;
        } else if i == 1 {
            assert((acc | (low << 7u32)) | (rest << 14u32) == acc | (u << 7u32)) by (bit_vector)
                requires
                    low == u % 128,
                    rest == u / 128,
                    u < 0x200_0000,
            ;
        } else if i == 2 {
            assert((acc | (low << 14u32)) | (rest << 21u32) == acc | (u << 14u32)) by (bit_vector)
                requires
                    low == u % 128,
                    rest == u / 128,
                    u < 0x4_0000,
            ;
        } else {
            assert((acc | (low << 21u32)) | (rest << 28u32) == acc | (u << 21u32)) by (bit_vector)
                requires
                    low == u % 128,
                    rest == u / 128,
                    u < 0x800,
            ;
        }
    }
}

/// A VarInt reads back as the number it was written from, whatever follows
/// it, and the reading ends where the VarInt ends.
pub proof fn lemma_varint_round_trip(value: i32, rest: Seq<u8>)
    ensures
        varint_at(varint(value) + rest, 0, 0, 0) == Ok::<(i32, int), ParseError>(
            (value, varint(value).len() as int),
        ),
{
    let u = value as u32;
    let data = varint(value) + rest;
    assert(data.subrange(0, varint_of(u).len() as int) =~= varint_of(u));
    lemma_varint_read(data, 0, 0, 0, u);
    assert(((0u32 | (u << 0u32)) as i32) == value) by (bit_vector)
        requires
            u == value as u32,
    ;
}

/// The handshake and status request for a server named `hostname` on
/// `port`: a handshake packet (id 0, protocol version, host name, port, next
/// state 1) with its length in front, then a status request packet (length
/// 1, id 0).
pub open spec fn request_bytes(hostname: Seq<u8>, port: u16, protocol_version: i32) -> Seq<u8> {
    let handshake = seq![0u8] + varint(protocol_version) + varint(hostname.len() as i32)
        + hostname + seq![(port / 0x100) as u8, (port % 0x100) as u8, 1u8];
    varint(handshake.len() as i32) + handshake + seq![1u8, 0u8]
}

/// Builds the handshake and status request.
pub fn build_latest_request(hostname: &str, port: u16, protocol_version: i32) -> (request: Vec<u8>)
    ensures
        request@ == request_bytes(hostname.spec_bytes(), port, protocol_version),
{
    let name = hostname.as_bytes();
    let mut buffer: Vec<u8> = Vec::new();
    buffer.push(0x00);
    write_varint(&mut buffer, protocol_version);
    write_varint(&mut buffer, #[verifier::truncate] (name.len() as i32));
    buffer.extend_from_slice(name);
    buffer.push((port / 0x100) as u8);
    buffer.push((port % 0x100) as u8);
    buffer.push(0x01);
    let ghost handshake = seq![0u8] + varint(protocol_version) + varint(name@.len() as i32)
        + name@ + seq![(port / 0x100) as u8, (port % 0x100) as u8, 1u8];
    assert(buffer@ =~= handshake);
    let mut full_buffer: Vec<u8> = Vec::new();
    write_varint(&mut full_buffer, #[verifier::truncate] (buffer.len() as i32));
    full_buffer.extend_from_slice(buffer.as_slice());
    full_buffer.push(1);
    full_buffer.push(0x00);
    assert(full_buffer@ =~= varint(handshake.len() as i32) + handshake + seq![1u8, 0u8]);
    full_buffer
}

/// Where the status text starts in a response: after the packet length, the
/// packet id, which is zero, and the length of the text, which is positive
/// and no more than what follows it. A response that ends early is
/// incomplete; any other is invalid.
pub open spec fn status_start(data: Seq<u8>) -> Result<int, ParseError> {
    match varint_at(data, 0, 0, 0) {
        Err(e) => Err(e),
        Ok((_, after_length)) => match varint_at(data, after_length, 0, 0) {
            Err(e) => Err(e),
            Ok((packet_id, after_id)) => match varint_at(data, after_id, 0, 0) {
                Err(e) => Err(e),
                Ok((response_length, after_size)) => if packet_id != 0 || response_length <= 0 {
                    Err(ParseError::Invalid)
                } else if data.len() - after_size < response_length {
                    Err(ParseError::Incomplete)
                } else {
                    Ok(after_size)
                },
            },
        },
    }
}

/// Finds the status text of a response.
pub fn find_status(data: &[u8]) -> (r: Result<usize, ParseError>)
    ensures
        match r {
            Ok(start) => status_start(data@) == Ok::<int, ParseError>(start as int) && start
                <= data@.len(),
            Err(e) => status_start(data@) == Err::<int, ParseError>(e),
        },
{
    let (_, after_length) = match read_varint(data, 0) {
        Ok(v) => v,
        Err(e) => {
            return Err(e);
        },
    };
    let (packet_id, after_id) = match read_varint(data, after_length) {
        Ok(v) => v,
        Err(e) => {
            return Err(e);
        },
    };
    let (response_length, after_size) = match read_varint(data, after_id) {
        Ok(v) => v,
        Err(e) => {
            return Err(e);
        },
    };
    if packet_id != 0 || response_length <= 0 {
        return Err(ParseError::Invalid);
    }
    if data.len() - after_size < response_length as usize {
        return Err(ParseError::Incomplete);
    }
    Ok(after_size)
}

/// Whether `decoded` is something that `decode` may answer when asked about
/// the status text `text`.
pub open spec fn decodes<O, D: Fn(&[u8]) -> Option<O>>(decode: &D, text: &[u8], decoded: Option<O>)
    -> bool {
    call_ensures(*decode, (text,), decoded)
}

/// What a response yields whose status text starts at `start`, given what
/// the decoder made of that text: the status, or invalid where the text is
/// no status.
pub open spec fn status_of<O>(decoded: Option<O>) -> Result<O, ParseError> {
    match decoded {
        Some(status) => Ok(status),
        None => Err(ParseError::Invalid),
    }
}

/// The parser of status responses. It finds the status text in a response
/// and hands it to its decoder, which turns the text into a status or says
/// that it is none: from where the text starts to the end of what was
/// received.
#[verifier::reject_recursive_types(O)]
#[verifier::reject_recursive_types(D)]
pub struct SLPParser<O, D: Fn(&[u8]) -> Option<O>> {
    decode: D,
    status: PhantomData<O>,
}

impl<O, D: Fn(&[u8]) -> Option<O>> SLPParser<O, D> {
    /// The decoder may be asked about any text.
    #[verifier::type_invariant]
    pub closed spec fn wf(self) -> bool {
        forall|text: &[u8]| call_requires(self.decode, (text,))
    }

    /// The decoder.
    pub closed spec fn decoder(&self) -> &D {
        &self.decode
    }

    /// A parser that decodes status texts with `decode`, which may be asked
    /// about any text.
    pub fn new(decode: D) -> (parser: Self)
        requires
            forall|text: &[u8]| call_requires(decode, (text,)),
        ensures
            *parser.decoder() == decode,
    {
        SLPParser { decode, status: PhantomData }
    }
}

impl<O, D: Fn(&[u8]) -> Option<O>> Parser for SLPParser<O, D> {
    type Output = O;

    fn kind(&self) -> (k: ParserKind)
        ensures
            k == ParserKind::Slp,
    {
        ParserKind::Slp
    }

    /// The status of a response. A response that ends before its status
    /// text does is incomplete, and one with another packet id or without a
    /// length is invalid, whatever the decoder; only a complete response is
    /// handed to the decoder, and it yields what the decoder makes of it.
    /// The peer's address and port play no part.
    fn parse(&self, ip: Ipv4, port: u16, data: &[u8]) -> (r: Result<O, ParseError>)
        ensures
            match status_start(data@) {
                Err(e) => r == Err::<O, ParseError>(e),
                Ok(start) => exists|text: &[u8], decoded: Option<O>| #[trigger]
                    decodes(self.decoder(), text, decoded) && text@ == data@.subrange(
                        start,
                        data@.len() as int,
                    ) && r == status_of(decoded),
            },
    {
        proof {
            use_type_invariant(self);
        }
        let start = match find_status(data) {
            Ok(start) => start,
            Err(e) => {
                return Err(e);
            },
        };
        let text = &data[start..data.len()];
        let decoded = (self.decode)(text);
        assert(decodes(self.decoder(), text, decoded));
        match decoded {
            Some(status) => Ok(status),
            None => Err(ParseError::Invalid),
        }
    }
}

/// What a status text says once decoded.
#[derive(Debug, Clone)]
pub struct SLPResponse {
    pub version: Version,
    pub players: Players,
    /// The description, as JSON text.
    pub description: Option<String>,
    pub favicon: Option<String>,
    pub enforces_secure_chat: Option<bool>,
    pub previews_chat: Option<bool>,
    pub mod_info: Option<ModInfo>,
    pub forge_data: Option<ForgeData>,
}

#[derive(Debug, Clone)]
pub struct Version {
    pub name: String,
    pub protocol: i32,
}

#[derive(Debug, Clone)]
pub struct Players {
    pub max: usize,
    pub online: usize,
    pub sample: Option<Vec<Player>>,
}

/// One of the players a server lists.
#[derive(Debug, Clone)]
pub struct Player {
    pub name: String,
    /// The player's UUID.
    pub id: String,
}

/// The mod list of the FML protocol (versions 1.7 to 1.12).
#[derive(Debug, Clone)]
pub struct ModInfo {
    /// `FML` where Forge is installed.
    pub mod_type: String,
    pub mod_list: Vec<ModInfoItem>,
}

#[derive(Debug, Clone)]
pub struct ModInfoItem {
    pub mod_id: String,
    pub version: String,
}

/// The Forge data of the FML2 protocol (version 1.13 and later).
#[derive(Debug, Clone)]
pub struct ForgeData {
    pub channels: Vec<ForgeChannel>,
    pub mods: Vec<ForgeMod>,
    pub fml_network_version: i32,
}

/// A channel that a mod uses.
#[derive(Debug, Clone)]
pub struct ForgeChannel {
    /// The namespaced key of the channel.
    pub res: String,
    pub version: String,
    pub required: bool,
}

#[derive(Debug, Clone)]
pub struct ForgeMod {
    pub mod_id: String,
    pub mod_marker: String,
}

} // verus!
