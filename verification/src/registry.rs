//! The clients that a server knows, kept in a map of the crate `dashmap`.

use crate::channel::{
    clone_event_receiver, clone_event_sender, clone_request_receiver, clone_request_sender,
    event_receives, event_sends, events_from, events_into, request_receives, request_sends,
    requests_from, requests_into, send_event,
};
use crate::interface::{ClientMsg, ServerMsg};
use crossbeam_channel::{Receiver, Sender};
use dashmap::DashMap;
use vstd::prelude::*;

verus! {

/// A concurrent hash map.
#[verifier::external_type_specification]
#[verifier::external_body]
#[verifier::reject_recursive_types(K)]
#[verifier::reject_recursive_types(V)]
#[verifier::reject_recursive_types(S)]
pub struct ExDashMap<K, V, S>(dashmap::DashMap<K, V, S>);

/// What the server keeps of a registered client.
pub struct ClientInfo {
    /// True if this client participates in step barriers.
    pub step_participant: bool,
    /// The way into the request channel, kept for remote clients only. A local client holds the
    /// only sender, so the channel closes when the client is dropped.
    pub inbound_tx: Option<Sender<ClientMsg>>,
    /// Client to server messages.
    pub inbound_rx: Receiver<ClientMsg>,
    /// Server to client messages.
    pub outbound_tx: Sender<ServerMsg>,
    pub outbound_rx: Receiver<ServerMsg>,
}

impl ClientInfo {
    /// True if `other` stands for the same client: the same role and the same channels, through
    /// handles that need not be the same.
    pub open spec fn same_client(self, other: ClientInfo) -> bool {
        &&& self.step_participant == other.step_participant
        &&& self.inbound_tx is Some == other.inbound_tx is Some
        &&& self.inbound_tx is Some ==> requests_into(self.inbound_tx->0) == requests_into(
            other.inbound_tx->0,
        )
        &&& requests_from(self.inbound_rx) == requests_from(other.inbound_rx)
        &&& events_into(self.outbound_tx) == events_into(other.outbound_tx)
        &&& events_from(self.outbound_rx) == events_from(other.outbound_rx)
    }

    /// True of handles through which nothing has passed.
    pub open spec fn is_unused(self) -> bool {
        &&& self.inbound_tx is Some ==> request_sends(self.inbound_tx->0).len() == 0
        &&& request_receives(self.inbound_rx).len() == 0
        &&& event_sends(self.outbound_tx).len() == 0
        &&& event_receives(self.outbound_rx).len() == 0
    }

    /// True if `after` is this client once `msgs` have been offered to it, in order.
    pub open spec fn after_offer(self, msgs: Seq<ServerMsg>, after: ClientInfo) -> bool {
        &&& after.step_participant == self.step_participant
        &&& after.inbound_tx == self.inbound_tx
        &&& after.inbound_rx == self.inbound_rx
        &&& after.outbound_rx == self.outbound_rx
        &&& events_into(after.outbound_tx) == events_into(self.outbound_tx)
        &&& extends_by(event_sends(self.outbound_tx), event_sends(after.outbound_tx), msgs)
    }

    /// Offers `msgs` to the client, in order. A client that is gone does not stop the rest.
    pub(crate) fn offer(&mut self, msgs: &Vec<ServerMsg>)
        ensures
            old(self).after_offer(msgs@, *final(self)),
    {
        let mut i: usize = 0;
        assert(event_sends(self.outbound_tx).take(event_sends(self.outbound_tx).len() as int)
            =~= event_sends(self.outbound_tx));
        while i < msgs.len()
            invariant
                i <= msgs.len(),
                old(self).after_offer(msgs@.take(i as int), *self),
            decreases msgs.len() - i,
        {
            let ghost before = event_sends(self.outbound_tx);
            let _ = send_event(&mut self.outbound_tx, msgs[i].clone());
            proof {
                let start = event_sends(old(self).outbound_tx);
                assert(event_sends(self.outbound_tx).take(start.len() as int) =~= before.take(
                    start.len() as int,
                ));
            }
            i = i + 1;
        }
        assert(msgs@.take(msgs@.len() as int) =~= msgs@);
    }
}

/// True if `after` is the record `before` followed by one entry for each of `msgs`, in order.
pub open spec fn extends_by(
    before: Seq<(ServerMsg, bool)>,
    after: Seq<(ServerMsg, bool)>,
    msgs: Seq<ServerMsg>,
) -> bool {
    &&& after.len() == before.len() + msgs.len()
    &&& after.take(before.len() as int) == before
    &&& forall|i: int| 0 <= i < msgs.len() ==> after[before.len() + i].0 == #[trigger] msgs[i]
}

impl Clone for ClientInfo {
    fn clone(&self) -> (copy: Self)
        ensures
            self.same_client(copy),
            copy.is_unused(),
    {
        ClientInfo {
            step_participant: self.step_participant,
            inbound_tx: match &self.inbound_tx {
                Some(tx) => Some(clone_request_sender(tx)),
                None => None,
            },
            inbound_rx: clone_request_receiver(&self.inbound_rx),
            outbound_tx: clone_event_sender(&self.outbound_tx),
            outbound_rx: clone_event_receiver(&self.outbound_rx),
        }
    }
}

/// The clients that `map` holds, by id. The map type can be changed through a shared reference as
/// well. Everything here changes it through `&mut`, and a host shares it behind a lock, so what is
/// said of a map stays true until the next call that takes it by `&mut`.
pub uninterp spec fn clients_in(map: DashMap<u64, ClientInfo>) -> Map<u64, ClientInfo>;

/// Every client has channels of its own: no two share one, in either direction.
pub open spec fn separate(clients: Map<u64, ClientInfo>) -> bool {
    forall|a: u64, b: u64|
        #![trigger clients.dom().contains(a), clients.dom().contains(b)]
        clients.dom().contains(a) && clients.dom().contains(b) && a != b ==> {
            &&& requests_from(clients[a].inbound_rx) != requests_from(clients[b].inbound_rx)
            &&& events_into(clients[a].outbound_tx) != events_into(clients[b].outbound_tx)
        }
}

/// No client at all.
pub open spec fn no_clients() -> Map<u64, ClientInfo> {
    Map::empty()
}

/// The ids of the clients that take part in step barriers.
pub open spec fn participants(clients: Map<u64, ClientInfo>) -> Set<u64> {
    clients.dom().filter(|id: u64| clients[id].step_participant)
}

/// True if `entries` lists each client once, as its id and whether it is a participant.
pub open spec fn lists(entries: Seq<(u64, bool)>, clients: Map<u64, ClientInfo>) -> bool {
    &&& forall|i: int|
        0 <= i < entries.len() ==> clients.dom().contains((#[trigger] entries[i]).0) && entries[i].1
            == clients[entries[i].0].step_participant
    &&& forall|i: int, j: int|
        0 <= i < j < entries.len() ==> (#[trigger] entries[i]).0 != (#[trigger] entries[j]).0
    &&& forall|id: u64| #[trigger]
        clients.dom().contains(id) ==> exists|i: int|
            0 <= i < entries.len() && (#[trigger] entries[i]).0 == id
}

/// Calls `DashMap::new`: an empty map.
#[verifier::external_body]
pub(crate) fn new_map() -> (map: DashMap<u64, ClientInfo>)
    ensures
        clients_in(map) == no_clients(),
{
    DashMap::new()
}

/// Calls `DashMap::insert`: `id` now maps to `info`, and the client that it mapped to before is
/// given back.
#[verifier::external_body]
pub(crate) fn insert(map: &mut DashMap<u64, ClientInfo>, id: u64, info: ClientInfo) -> (previous:
    Option<ClientInfo>)
    ensures
        clients_in(*final(map)) == clients_in(*old(map)).insert(id, info),
        previous == clients_in(*old(map)).get(id),
{
    map.insert(id, info)
}

/// Calls `DashMap::remove`: `id` no longer maps to a client, and the one that it mapped to is
/// given back with its id.
#[verifier::external_body]
pub(crate) fn remove(map: &mut DashMap<u64, ClientInfo>, id: u64) -> (removed: Option<
    (u64, ClientInfo),
>)
    ensures
        clients_in(*final(map)) == clients_in(*old(map)).remove(id),
        removed == match clients_in(*old(map)).get(id) {
            Some(info) => Some((id, info)),
            None => None,
        },
{
    map.remove(&id)
}

/// Calls `DashMap::get`: a clone of the client that `id` maps to, if there is one.
#[verifier::external_body]
pub(crate) fn get(map: &DashMap<u64, ClientInfo>, id: u64) -> (found: Option<ClientInfo>)
    ensures
        found is Some == clients_in(*map).dom().contains(id),
        found is Some ==> clients_in(*map)[id].same_client(found->0) && (found->0).is_unused(),
{
    map.get(&id).map(|entry| entry.value().clone())
}

/// Calls `DashMap::iter`: each client of the map once, in no particular order, reduced to its id
/// and whether it is a participant.
#[verifier::external_body]
pub(crate) fn entries(map: &DashMap<u64, ClientInfo>) -> (list: Vec<(u64, bool)>)
    ensures
        lists(list@, clients_in(*map)),
{
    map.iter().map(|entry| (*entry.key(), entry.value().step_participant)).collect()
}

/// Calls `DashMap::clear`: the map is empty afterwards.
#[verifier::external_body]
pub(crate) fn clear(map: &mut DashMap<u64, ClientInfo>)
    ensures
        clients_in(*final(map)) == no_clients(),
{
    map.clear()
}

} // verus!
