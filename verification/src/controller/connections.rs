//! The responder's table of open connections: a map from peer to connection
//! state whose entries decay after the ping timeout.

use crate::net::tcp::Ipv4;
use std::time::Duration;
use ttlhashmap::TtlHashMap;
use vstd::prelude::*;

verus! {

/// A peer: address and port.
pub type Peer = (Ipv4, u16);

/// What the responder remembers of one connection.
pub struct State {
    /// The payload bytes received so far, in order.
    pub data: Vec<u8>,
    /// Our next sequence number: the peer's last acknowledgment, once it sent
    /// data.
    pub next_seq: Option<u32>,
    /// The peer sequence number we expect next.
    pub next_expected_seq: u32,
    /// The acknowledgment that will confirm our request, until it arrives.
    pub next_expected_ack: Option<u32>,
    /// Whether we sent our FIN.
    pub fin_sent: bool,
}

/// A connection state, its bytes as a sequence.
pub struct StateView {
    pub data: Seq<u8>,
    pub next_seq: Option<u32>,
    pub next_expected_seq: u32,
    pub next_expected_ack: Option<u32>,
    pub fin_sent: bool,
}

impl View for State {
    type V = StateView;

    open spec fn view(&self) -> StateView {
        StateView {
            data: self.data@,
            next_seq: self.next_seq,
            next_expected_seq: self.next_expected_seq,
            next_expected_ack: self.next_expected_ack,
            fin_sent: self.fin_sent,
        }
    }
}

/// `ttlhashmap::TtlHashMap`: a hash map whose entries decay. Nothing of its
/// inside is known here.
#[verifier::external_type_specification]
#[verifier::external_body]
#[verifier::reject_recursive_types(K)]
#[verifier::reject_recursive_types(V)]
pub struct ExTtlHashMap<K: Eq + std::hash::Hash, V>(TtlHashMap<K, V>);

/// The table itself: peers to their connection state.
pub type Connections = TtlHashMap<Peer, State>;

/// The entries a connection table holds.
pub uninterp spec fn held(table: Connections) -> Map<Peer, State>;

/// The table without an entry.
pub open spec fn no_connections() -> Map<Peer, State> {
    Map::empty()
}

/// Every entry of `after` is an entry of `before`: `after` is `before` less
/// the entries that decayed.
pub open spec fn decayed_from(after: Map<Peer, State>, before: Map<Peer, State>) -> bool {
    forall|p: Peer| #[trigger]
        after.dom().contains(p) ==> before.dom().contains(p) && after[p] == before[p]
}

/// The longest time that entries may be given to live: the table adds it to
/// the present instant, and the sum must be an instant the clock can name.
pub const MAX_TIMEOUT_SECS: u64 = 0x1_0000_0000;

/// `TtlHashMap::new`: an empty table whose entries live `timeout_secs`
/// seconds after they were last written or looked up.
#[verifier::external_body]
pub(crate) fn table_new(timeout_secs: u64) -> (table: Connections)
    requires
        timeout_secs <= MAX_TIMEOUT_SECS,
    ensures
        held(table) == no_connections(),
{
    TtlHashMap::new(Duration::from_secs(timeout_secs))
}

/// `TtlHashMap::get_mut`: drops the entries that decayed, then hands out the
/// entry of `peer` if it is still there and renews its life. What is written
/// through the reference is what the table holds afterwards.
#[verifier::external_body]
pub(crate) fn table_get_mut<'a>(table: &'a mut Connections, peer: Peer) -> (slot: Option<
    &'a mut State,
>)
    ensures
        decayed_from(held(*final(table)).remove(peer), held(*old(table)).remove(peer)),
        slot.is_none() ==> !held(*final(table)).dom().contains(peer),
        slot.is_some() ==> held(*old(table)).dom().contains(peer),
        slot.is_some() ==> *slot.unwrap() == held(*old(table))[peer],
        slot.is_some() ==> held(*final(table)).dom().contains(peer),
        slot.is_some() ==> held(*final(table))[peer] == *final(slot.unwrap()),
{
    table.get_mut(&peer)
}

/// `TtlHashMap::insert`: drops the entries that decayed, then binds `peer`
/// to `state`.
#[verifier::external_body]
pub(crate) fn table_insert(table: &mut Connections, peer: Peer, state: State)
    ensures
        decayed_from(held(*final(table)).remove(peer), held(*old(table)).remove(peer)),
        held(*final(table)).dom().contains(peer),
        held(*final(table))[peer] == state,
{
    table.insert(peer, state);
}

/// `TtlHashMap::remove`: drops the entries that decayed, and the entry of
/// `peer`.
#[verifier::external_body]
pub(crate) fn table_remove(table: &mut Connections, peer: Peer)
    ensures
        decayed_from(held(*final(table)), held(*old(table)).remove(peer)),
        !held(*final(table)).dom().contains(peer),
{
    table.remove(&peer);
}

} // verus!
