//! What a scan speaks once the handshake is done: a request to send and a
//! parser for what comes back.

use crate::net::tcp::Ipv4;
use vstd::prelude::*;

pub mod minecraft;

verus! {

/// Why a parser did not yield a banner.
#[derive(Clone, Copy, Debug, PartialEq, Eq, Structural)]
pub enum ParseError {
    /// The bytes cannot be the start of a valid answer.
    Invalid,
    /// The bytes are a proper prefix of an answer: more are needed.
    Incomplete,
}

/// The kinds of parser the scanner knows, by which results are filed.
#[derive(Clone, Copy, Debug, PartialEq, Eq, Structural, Hash)]
pub enum ParserKind {
    /// Minecraft Server List Ping.
    Slp,
}

/// Why no request could be built for a peer.
#[derive(Debug)]
pub struct PayloadError {
    pub reason: String,
}

/// Turns the bytes a peer sent so far into a banner. What an implementation
/// answers is its own affair: the responder acts on whatever comes back.
pub trait Parser {
    /// The banner.
    type Output;

    /// The kind under which this parser's banners are filed.
    fn kind(&self) -> ParserKind;

    /// The banner that the bytes `data` from `ip:port` hold, or why they
    /// hold none yet.
    fn parse(&self, ip: Ipv4, port: u16, data: &[u8]) -> Result<Self::Output, ParseError>;
}

/// Builds the request that opens the conversation with a peer.
pub trait Payload {
    /// The request for `ip:port`, if one can be built.
    fn build(&self, ip: Ipv4, port: u16) -> Result<&[u8], PayloadError>;
}

/// A fixed request: the same bytes for every peer.
impl Payload for Vec<u8> {
    fn build(&self, ip: Ipv4, port: u16) -> (r: Result<&[u8], PayloadError>)
        ensures
            r.is_ok(),
            r.unwrap()@ == self@,
    {
        Ok(self.as_slice())
    }
}

} // verus!
