//! What goes to the sink: one record per banner, filed by the kind of
//! parser that found it.

use crate::config::CollectionConfig;
use crate::controller::protocol::{Parser, ParserKind};
use crate::net::tcp::Ipv4;
use vstd::prelude::*;

verus! {

/// One result of a scan.
pub struct Scanling<P: Parser> {
    /// When the banner was found, in milliseconds since the epoch.
    pub timestamp: i64,
    pub ip: Ipv4,
    pub port: u16,
    pub response: P::Output,
}

impl<P: Parser> Scanling<P> {
    pub fn new(timestamp: i64, ip: Ipv4, port: u16, response: P::Output) -> (s: Self)
        ensures
            s.timestamp == timestamp,
            s.ip == ip,
            s.port == port,
            s.response == response,
    {
        Scanling { timestamp, ip, port, response }
    }
}

/// The first entry from `from` on that is for `kind`, if there is one.
pub open spec fn first_for(collections: Seq<CollectionConfig>, kind: ParserKind, from: int)
    -> Option<int>
    decreases collections.len() - from,
{
    if from < 0 || from >= collections.len() {
        None
    } else if collections[from].parser == kind {
        Some(from)
    } else {
        first_for(collections, kind, from + 1)
    }
}

/// The entry that names the collection for the banners of `kind`: the first
/// one for that kind.
pub fn collection_for(collections: &Vec<CollectionConfig>, kind: ParserKind) -> (found: Option<
    usize,
>)
    ensures
        match found {
            Some(i) => first_for(collections@, kind, 0) == Some(i as int) && i < collections@.len(),
            None => first_for(collections@, kind, 0).is_none(),
        },
{
    let mut i: usize = 0;
    while i < collections.len()
        invariant
            i <= collections@.len(),
            first_for(collections@, kind, 0) == first_for(collections@, kind, i as int),
        decreases collections@.len() - i,
    {
        if collections[i].parser == kind {
            return Some(i);
        }
        i += 1;
    }
    None
}

} // verus!
