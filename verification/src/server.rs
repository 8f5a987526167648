//! The server: it keeps the registered clients and steps the simulation in lockstep with them.
//!
//! A `Server` and its `SimLoop` are plain state. A host shares the server between threads behind
//! a lock and drives the loop: `refresh`, then `wait` without the lock, then `handle`, until one
//! of them says to stop, and `finish` at the end.

use crate::barrier::{
    all_offered, applied, barrier_met, barrier_turn, is_registration,
    law_listening_survives_change, law_step_needs_every_participant, law_turn_keeps_listening,
    listens_to, live, passed_on, sorted_ids, stepped, stops, LoopEvent, World,
};
use crate::channel::{
    clone_event_receiver, clone_request_sender, events_apart, request_receives, request_waits,
    requests_apart, requests_from, select_request, unbounded_events, unbounded_requests,
};
use crate::interface::{ClientMsg, ClientMsgBody, ServerMsg, SimError, Simulation, Tick};
use crate::registry::{
    clear, clients_in, entries, get, insert, lists, new_map, no_clients, participants,
    remove, separate, ClientInfo,
};
use crossbeam_channel::{Receiver, Sender};
use dashmap::DashMap;
use std::collections::HashSet;
use vstd::prelude::*;

verus! {

broadcast use vstd::std_specs::hash::group_hash_axioms;

/// Server startup mode.
pub enum ServerMode {
    /// Start simulation only, no gRPC endpoint.
    Local,
    /// Start simulation and a gRPC endpoint listening at the given address.
    WithGrpc(String),
}

/// State of the server.
pub struct Server<S: Simulation> {
    /// The id that the next client gets.
    pub next_client_id: u64,
    pub clients: DashMap<u64, ClientInfo>,
    pub sim: S,
    /// True once the server has been told to shut down.
    pub shutdown_flag: bool,
}

/// The state of the simulation loop between two turns.
pub struct SimLoop {
    /// The clients that have reported that they are ready for the next step.
    pub ready: HashSet<u64>,
    /// The clients that the loop listens to, in increasing order.
    pub client_ids: Vec<u64>,
    /// Where the loop listens to each of them.
    pub receivers: Vec<Receiver<ClientMsg>>,
}

/// What the loop does after looking at the clients.
#[derive(Debug, Clone, Copy, PartialEq, Eq)]
pub enum LoopStep {
    /// Leave the loop.
    Stop,
    /// Nobody to listen to: sleep for this many milliseconds and look again.
    Sleep(u64),
    /// Wait for a message, at most this many milliseconds.
    Wait(u64),
}

/// How long the loop sleeps when there is nobody to listen to, in milliseconds.
pub const IDLE_SLEEP_MS: u64 = 5;

/// How long the loop waits for a message before it looks at the clients again, in milliseconds.
pub const SELECT_TIMEOUT_MS: u64 = 10;

/// Tests whether the barrier is met, by a list of the clients.
fn is_barrier_met(
    ready: &HashSet<u64>,
    list: &Vec<(u64, bool)>,
    Ghost(clients): Ghost<Map<u64, ClientInfo>>,
) -> (met: bool)
    requires
        lists(list@, clients),
        clients.dom().finite(),
    ensures
        met == barrier_met(ready@, clients),
{
    let mut found: bool = false;
    let mut i: usize = 0;
    while i < list.len()
        invariant
            i <= list.len(),
            lists(list@, clients),
            clients.dom().finite(),
            found ==> exists|id: u64| #[trigger] participants(clients).contains(id),
            forall|j: int| 0 <= j < i && (#[trigger] list@[j]).1 ==> found && ready@.contains(
                list@[j].0,
            ),
        decreases list.len() - i,
    {
        let entry: (u64, bool) = list[i];
        if entry.1 {
            assert(participants(clients).contains(list@[i as int].0));
            if !ready.contains(&entry.0) {
                return false;
            }
            found = true;
        }
        i = i + 1;
    }
    proof {
        law_step_needs_every_participant(ready@, clients);
        assert forall|id: u64| #[trigger] participants(clients).contains(id) implies found
            && ready@.contains(id) by {
            let j = choose|j: int| 0 <= j < list@.len() && (#[trigger] list@[j]).0 == id;
            assert(list@[j].1);
        }
    }
    found
}

/// Clients that can be listed are finitely many.
proof fn lemma_listed_clients_are_finite(list: Seq<(u64, bool)>, clients: Map<u64, ClientInfo>)
    requires
        lists(list, clients),
    ensures
        clients.dom().finite(),
{
    let ids = list.map_values(|entry: (u64, bool)| entry.0);
    assert forall|id: u64| #[trigger] clients.dom().contains(id) implies ids.to_set().contains(
        id,
    ) by {
        let i = choose|i: int| 0 <= i < list.len() && (#[trigger] list[i]).0 == id;
        assert(ids[i] == id);
    }
    vstd::seq_lib::seq_to_set_is_finite(ids);
    vstd::set_lib::lemma_set_subset_finite(ids.to_set(), clients.dom());
}

/// Clients that are gone make no difference to the barrier.
proof fn lemma_only_registered_clients_count(ready: Set<u64>, clients: Map<u64, ClientInfo>)
    ensures
        barrier_met(live(ready, clients), clients) == barrier_met(ready, clients),
{
    assert forall|id: u64| #[trigger] participants(clients).contains(id) implies live(
        ready,
        clients,
    ).contains(id) == ready.contains(id) by {}
}

/// The ids of `ready` that occur in a list of the clients.
fn keep_listed(
    ready: &HashSet<u64>,
    list: &Vec<(u64, bool)>,
    Ghost(clients): Ghost<Map<u64, ClientInfo>>,
) -> (kept: HashSet<u64>)
    requires
        lists(list@, clients),
    ensures
        kept@ == live(ready@, clients),
{
    let mut kept: HashSet<u64> = HashSet::new();
    let mut i: usize = 0;
    while i < list.len()
        invariant
            i <= list.len(),
            forall|id: u64| #[trigger]
                kept@.contains(id) <==> ready@.contains(id) && exists|j: int|
                    0 <= j < i && (#[trigger] list@[j]).0 == id,
        decreases list.len() - i,
    {
        let id: u64 = list[i].0;
        let ghost before = kept@;
        if ready.contains(&id) {
            kept.insert(id);
        }
        assert forall|k: u64| #[trigger] kept@.contains(k) <==> ready@.contains(k) && exists|j: int|
            0 <= j < i + 1 && (#[trigger] list@[j]).0 == k by {
            if k == id {
                assert(list@[i as int].0 == k);
            }
            if before.contains(k) {
                let j = choose|j: int| 0 <= j < i && (#[trigger] list@[j]).0 == k;
                assert(list@[j].0 == k);
            }
        }
        i = i + 1;
    }
    assert(kept@ =~= live(ready@, clients));
    kept
}

/// Puts `id`, which is not there yet, in its place among increasing ids.
fn insert_sorted(ids: &mut Vec<u64>, id: u64)
    requires
        forall|i: int, j: int| 0 <= i < j < old(ids)@.len() ==> old(ids)@[i] < old(ids)@[j],
        !old(ids)@.contains(id),
    ensures
        forall|i: int, j: int| 0 <= i < j < final(ids)@.len() ==> final(ids)@[i] < final(ids)@[j],
        final(ids)@.to_set() == old(ids)@.to_set().insert(id),
{
    let mut at: usize = ids.len();
    while at > 0 && ids[at - 1] > id
        invariant
            at <= ids.len(),
            ids@ == old(ids)@,
            forall|i: int, j: int| 0 <= i < j < ids@.len() ==> ids@[i] < ids@[j],
            forall|i: int| at <= i < ids@.len() ==> ids@[i] > id,
        decreases at,
    {
        at = at - 1;
    }
    let ghost before = ids@;
    assert(forall|i: int| 0 <= i < at ==> before[i] < id) by {
        if at > 0 {
            assert(before[at - 1] != id);
        }
    }
    ids.insert(at, id);
    assert(ids@ =~= before.take(at as int).push(id) + before.skip(at as int));
    assert(ids@.to_set() =~= before.to_set().insert(id)) by {
        assert forall|x: u64| ids@.to_set().contains(x) <==> #[trigger] before.to_set().insert(
            id,
        ).contains(x) by {
            if before.contains(x) {
                let i = choose|i: int| 0 <= i < before.len() && before[i] == x;
                assert(ids@[if i < at { i } else { i + 1 }] == x);
            }
            assert(ids@[at as int] == id);
            if ids@.contains(x) {
                let i = choose|i: int| 0 <= i < ids@.len() && ids@[i] == x;
                if i < at {
                    assert(before[i] == x);
                } else if i > at {
                    assert(before[i - 1] == x);
                }
            }
        }
    }
}

/// The ids of the clients, in increasing order.
fn ids_in_order(clients: &DashMap<u64, ClientInfo>) -> (ids: Vec<u64>)
    ensures
        sorted_ids(ids@, clients_in(*clients)),
{
    let list: Vec<(u64, bool)> = entries(clients);
    let mut ids: Vec<u64> = Vec::new();
    let mut i: usize = 0;
    while i < list.len()
        invariant
            i <= list.len(),
            lists(list@, clients_in(*clients)),
            forall|a: int, b: int| 0 <= a < b < ids@.len() ==> ids@[a] < ids@[b],
            forall|id: u64| #[trigger]
                ids@.to_set().contains(id) <==> exists|j: int|
                    0 <= j < i && (#[trigger] list@[j]).0 == id,
        decreases list.len() - i,
    {
        let id: u64 = list[i].0;
        let ghost before = ids@;
        proof {
            if before.contains(id) {
                assert(before.to_set().contains(id));
            }
        }
        insert_sorted(&mut ids, id);
        assert forall|k: u64| #[trigger] ids@.to_set().contains(k) <==> exists|j: int|
            0 <= j < i + 1 && (#[trigger] list@[j]).0 == k by {
            if k == id {
                assert(list@[i as int].0 == k);
            }
            if before.to_set().contains(k) {
                let j = choose|j: int| 0 <= j < i && (#[trigger] list@[j]).0 == k;
                assert(list@[j].0 == k);
            }
        }
        i = i + 1;
    }
    assert(ids@.to_set() =~= clients_in(*clients).dom());
    ids
}

impl SimLoop {
    /// A loop that has heard of no client.
    pub fn new() -> (sim_loop: SimLoop)
        ensures
            sim_loop.ready@ == Set::<u64>::empty(),
            sim_loop.client_ids@.len() == 0,
            sim_loop.receivers@.len() == 0,
    {
        SimLoop { ready: HashSet::new(), client_ids: Vec::new(), receivers: Vec::new() }
    }

    /// Waits for a message of any of the clients that the loop listens to, at most `timeout_ms`
    /// milliseconds. A loop that listens to nobody does not wait.
    pub fn wait(&mut self, timeout_ms: u64) -> (event: LoopEvent)
        ensures
            old(self).waited(timeout_ms, event, *final(self)),
            final(self).ready == old(self).ready,
    {
        if self.receivers.len() == 0 {
            return LoopEvent::Timeout;
        }
        let got: Option<(usize, Option<ClientMsg>)> = select_request(
            &mut self.receivers,
            timeout_ms,
        );
        let event = LoopEvent::from_wait(got);
        assert forall|i: int| 0 <= i < old(self).receivers@.len() implies request_receives(
            #[trigger] self.receivers@[i],
        ) == request_receives(old(self).receivers@[i]) + event.received_at(i) by {
            let before = request_receives(old(self).receivers@[i]);
            assert(before + Seq::<Option<ClientMsg>>::empty() =~= before);
            if let Some((index, got)) = got {
                assert(before + seq![got] =~= before.push(got));
            }
        }
        event
    }
}

/// What a turn of the loop ends with.
#[derive(Debug, Clone, Copy, PartialEq, Eq)]
pub enum LoopTurn {
    /// Leave the loop.
    Stop,
    /// Go on.
    Continue,
    /// The simulation has stepped to this tick: go on.
    Stepped(Tick),
}

impl LoopTurn {
    /// The tick of a turn that goes on.
    pub open spec fn tick(self) -> Option<Tick> {
        match self {
            LoopTurn::Stepped(tick) => Some(tick),
            _ => None,
        }
    }
}

impl<S: Simulation> Server<S> {
    /// What the loop acts on.
    pub open spec fn world(self, ready: Set<u64>) -> World<S> {
        World { clients: clients_in(self.clients), ready, sim: self.sim }
    }

    /// Ids are issued in increasing order from one: every registered client has an id below the
    /// next one. And every client has channels of its own.
    pub open spec fn well_formed(self) -> bool {
        &&& forall|id: u64| #[trigger]
            clients_in(self.clients).dom().contains(id) ==> 1 <= id < self.next_client_id
        &&& separate(clients_in(self.clients))
    }

    /// A server without a gRPC endpoint.
    pub fn new_local(sim: S) -> (started: (Server<S>, SimLoop, Option<String>))
        ensures
            started.0.is_new(sim),
            started.1.is_new(),
            started.2 is None,
    {
        Self::new(ServerMode::Local, sim)
    }

    /// A server with a gRPC endpoint at `addr`.
    pub fn new_with_grpc(addr: String, sim: S) -> (started: (Server<S>, SimLoop, Option<String>))
        ensures
            started.0.is_new(sim),
            started.1.is_new(),
            started.2 == Some(addr),
    {
        Self::new(ServerMode::WithGrpc(addr), sim)
    }

    /// True of a server that has seen no client yet.
    pub open spec fn is_new(self, sim: S) -> bool {
        &&& self.next_client_id == 1
        &&& clients_in(self.clients) == no_clients()
        &&& self.sim == sim
        &&& !self.shutdown_flag
        &&& self.well_formed()
    }

    /// A server for `sim`, the loop to run it with, and the address to serve gRPC at, if any.
    pub fn new(mode: ServerMode, sim: S) -> (started: (Server<S>, SimLoop, Option<String>))
        ensures
            started.0.is_new(sim),
            started.1.is_new(),
            started.2 == match mode {
                ServerMode::Local => None,
                ServerMode::WithGrpc(addr) => Some(addr),
            },
    {
        let server = Server { next_client_id: 1, clients: new_map(), sim, shutdown_flag: false };
        let sim_loop = server.start();
        let addr = match mode {
            ServerMode::Local => None,
            ServerMode::WithGrpc(addr) => Some(addr),
        };
        (server, sim_loop, addr)
    }

    /// `post` is this server once it has been told to shut down.
    pub open spec fn told_to_stop(self, post: Server<S>) -> bool {
        &&& post.shutdown_flag
        &&& post.clients == self.clients
        &&& post.next_client_id == self.next_client_id
        &&& post.sim == self.sim
    }

    /// Tells the server to shut down. The loop stops at its next look at the clients.
    pub fn shutdown(&mut self)
        ensures
            old(self).told_to_stop(*final(self)),
            old(self).well_formed() ==> final(self).well_formed(),
    {
        self.shutdown_flag = true;
    }

    /// The loop to run the server with.
    pub fn start(&self) -> (sim_loop: SimLoop)
        ensures
            sim_loop.is_new(),
    {
        SimLoop::new()
    }

    /// `post` comes from this server by registering a client, which got `client_id` and the two
    /// handles. No other client changes.
    pub open spec fn registers(
        self,
        local: bool,
        step_participant: bool,
        client_id: u64,
        to_server: Sender<ClientMsg>,
        from_server: Receiver<ServerMsg>,
        post: Server<S>,
    ) -> bool {
        &&& client_id == self.next_client_id
        &&& post.next_client_id == if self.next_client_id == u64::MAX {
            0
        } else {
            self.next_client_id + 1
        }
        &&& clients_in(post.clients).dom() == clients_in(self.clients).dom().insert(client_id)
        &&& clients_in(post.clients).remove(client_id) == clients_in(self.clients).remove(client_id)
        &&& is_registration(
            clients_in(post.clients)[client_id],
            local,
            step_participant,
            to_server,
            from_server,
        )
        &&& requests_apart(clients_in(self.clients), to_server)
        &&& events_apart(clients_in(self.clients), from_server)
        &&& post.sim == self.sim
        &&& post.shutdown_flag == self.shutdown_flag
    }

    /// `post` comes from this server by forgetting a client. No other client changes.
    pub open spec fn forgets(self, client_id: u64, post: Server<S>) -> bool {
        &&& clients_in(post.clients) == clients_in(self.clients).remove(client_id)
        &&& post.next_client_id == self.next_client_id
        &&& post.sim == self.sim
        &&& post.shutdown_flag == self.shutdown_flag
    }

    /// Registers a client under a fresh id. A `LOCAL` client holds the only sender of its
    /// requests; of a remote one the server keeps a sender for the stream.
    pub fn register_client<const LOCAL: bool>(&mut self, step_participant: bool) -> (client: (
        u64,
        Sender<ClientMsg>,
        Receiver<ServerMsg>,
    ))
        ensures
            old(self).registers(
                LOCAL,
                step_participant,
                client.0,
                client.1,
                client.2,
                *final(self),
            ),
            old(self).well_formed() && old(self).next_client_id < u64::MAX
                ==> !clients_in(old(self).clients).dom().contains(client.0),
            old(self).well_formed() && 1 <= old(self).next_client_id < u64::MAX
                ==> final(self).well_formed(),
    {
        let (to_server_tx, to_server_rx) = unbounded_requests(Some(&self.clients));
        let (from_server_tx, from_server_rx) = unbounded_events(Some(&self.clients));
        let client_id: u64 = self.next_client_id;
        self.next_client_id = client_id.wrapping_add(1);
        let inbound_tx = if LOCAL {
            None
        } else {
            Some(clone_request_sender(&to_server_tx))
        };
        let outbound_rx = clone_event_receiver(&from_server_rx);
        let info = ClientInfo {
            step_participant,
            inbound_tx,
            inbound_rx: to_server_rx,
            outbound_tx: from_server_tx,
            outbound_rx,
        };
        let _ = insert(&mut self.clients, client_id, info);
        assert(clients_in(self.clients).remove(client_id) =~= clients_in(
            old(self).clients,
        ).remove(client_id));
        (client_id, to_server_tx, from_server_rx)
    }

    /// Forgets a client.
    pub fn unregister_client(&mut self, client_id: u64)
        ensures
            old(self).forgets(client_id, *final(self)),
            old(self).well_formed() ==> final(self).well_formed(),
    {
        let _ = remove(&mut self.clients, client_id);
    }

    /// Offers `msgs` to every client, in order.
    fn offer_all(&mut self, msgs: &Vec<ServerMsg>)
        ensures
            all_offered(clients_in(old(self).clients), msgs@, clients_in(final(self).clients)),
            final(self).next_client_id == old(self).next_client_id,
            final(self).sim == old(self).sim,
            final(self).shutdown_flag == old(self).shutdown_flag,
    {
        let list: Vec<(u64, bool)> = entries(&self.clients);
        let ghost before = clients_in(self.clients);
        let mut i: usize = 0;
        while i < list.len()
            invariant
                i <= list.len(),
                lists(list@, before),
                before == clients_in(old(self).clients),
                clients_in(self.clients).dom() == before.dom(),
                forall|j: int|
                    0 <= j < i ==> before[list@[j].0].after_offer(
                        msgs@,
                        clients_in(self.clients)[(#[trigger] list@[j]).0],
                    ),
                forall|j: int|
                    i <= j < list@.len() ==> clients_in(self.clients)[(#[trigger] list@[j]).0]
                        == before[list@[j].0],
                self.next_client_id == old(self).next_client_id,
                self.sim == old(self).sim,
                self.shutdown_flag == old(self).shutdown_flag,
            decreases list.len() - i,
        {
            let id: u64 = list[i].0;
            assert(before.dom().contains(list@[i as int].0));
            if let Some((_, mut info)) = remove(&mut self.clients, id) {
                info.offer(msgs);
                let _ = insert(&mut self.clients, id, info);
            }
            assert(clients_in(self.clients).dom() =~= before.dom());
            i = i + 1;
        }
        assert forall|id: u64| #[trigger] before.dom().contains(id) implies before[id].after_offer(
            msgs@,
            clients_in(self.clients)[id],
        ) by {
            let j = choose|j: int| 0 <= j < list@.len() && (#[trigger] list@[j]).0 == id;
            assert(list@[j].0 == id);
        }
    }

    /// Steps the simulation if the barrier is met, and tells every client the new tick.
    pub fn maybe_step_simulation(&mut self, ready: &mut HashSet<u64>) -> (tick: Option<Tick>)
        ensures
            barrier_turn(old(self).world(old(ready)@), tick, final(self).world(final(ready)@)),
            final(self).next_client_id == old(self).next_client_id,
            final(self).shutdown_flag == old(self).shutdown_flag,
            old(self).well_formed() ==> final(self).well_formed(),
    {
        let list: Vec<(u64, bool)> = entries(&self.clients);
        let kept: HashSet<u64> = keep_listed(ready, &list, Ghost(clients_in(self.clients)));
        *ready = kept;
        proof {
            lemma_listed_clients_are_finite(list@, clients_in(self.clients));
            lemma_only_registered_clients_count(old(ready)@, clients_in(self.clients));
        }
        if is_barrier_met(ready, &list, Ghost(clients_in(self.clients))) {
            let outcome = self.sim.step();
            assert(stepped(old(self).sim, self.sim));
            let tick = self.sim.get_tick();
            let msgs: Vec<ServerMsg> = vec![ServerMsg::tick(tick)];
            assert(msgs@ =~= seq![ServerMsg::of_tick(tick)]);
            self.offer_all(&msgs);
            ready.clear();
            Some(tick)
        } else {
            None
        }
    }

    /// Handles on the request channels of the clients `ids`, position by position.
    fn receivers_of(&self, ids: &Vec<u64>) -> (receivers: Vec<Receiver<ClientMsg>>)
        requires
            sorted_ids(ids@, clients_in(self.clients)),
        ensures
            listens_to(receivers@, ids@, clients_in(self.clients)),
    {
        let mut receivers: Vec<Receiver<ClientMsg>> = Vec::new();
        let mut i: usize = 0;
        while i < ids.len()
            invariant
                i <= ids.len(),
                sorted_ids(ids@, clients_in(self.clients)),
                receivers@.len() == i,
                forall|j: int|
                    0 <= j < i && clients_in(self.clients).dom().contains(ids@[j])
                        ==> requests_from(#[trigger] receivers@[j]) == requests_from(
                        clients_in(self.clients)[ids@[j]].inbound_rx,
                    ),
            decreases ids.len() - i,
        {
            assert(ids@.to_set().contains(ids@[i as int]));
            if let Some(info) = get(&self.clients, ids[i]) {
                receivers.push(info.inbound_rx);
            }
            i = i + 1;
        }
        receivers
    }

    /// What the loop does when it listens to that many clients.
    pub open spec fn next_step(self, listening: nat) -> LoopStep {
        if self.shutdown_flag {
            LoopStep::Stop
        } else if listening == 0 {
            LoopStep::Sleep(IDLE_SLEEP_MS)
        } else {
            LoopStep::Wait(SELECT_TIMEOUT_MS)
        }
    }

    /// `post` and `step` come from `pre` by a look at the clients of this server. A server that
    /// shuts down is not looked at. The receivers change only with the clients.
    pub open spec fn refreshed(self, pre: SimLoop, step: LoopStep, post: SimLoop) -> bool {
        &&& step == self.next_step(post.receivers@.len())
        &&& post.ready == pre.ready
        &&& if self.shutdown_flag {
            post == pre
        } else {
            &&& sorted_ids(post.client_ids@, clients_in(self.clients))
            &&& if post.client_ids@ == pre.client_ids@ {
                post.receivers == pre.receivers
            } else {
                listens_to(post.receivers@, post.client_ids@, clients_in(self.clients))
            }
        }
    }

    /// What the loop knows is right: it listens to each of its clients that is still registered,
    /// and it has heard of no client to come.
    pub open spec fn heard_by(self, sim_loop: SimLoop) -> bool {
        &&& listens_to(sim_loop.receivers@, sim_loop.client_ids@, clients_in(self.clients))
        &&& forall|i: int|
            0 <= i < sim_loop.client_ids@.len() ==> #[trigger] sim_loop.client_ids@[i]
                < self.next_client_id
    }

    /// `post` comes from this server by the end of the loop: every client is dropped.
    pub open spec fn finished(self, post: Server<S>) -> bool {
        &&& clients_in(post.clients) == no_clients()
        &&& post.next_client_id == self.next_client_id
        &&& post.sim == self.sim
        &&& post.shutdown_flag == self.shutdown_flag
    }

    /// The loop's look at the clients: it notices a shutdown, and listens to the clients that are
    /// registered now. The receivers are looked up again only if the clients have changed.
    pub fn refresh(&self, sim_loop: &mut SimLoop) -> (step: LoopStep)
        ensures
            self.refreshed(*old(sim_loop), step, *final(sim_loop)),
            final(sim_loop).ready@ == old(sim_loop).ready@,
            old(sim_loop).paired() ==> final(sim_loop).paired(),
    {
        if self.shutdown_flag {
            return LoopStep::Stop;
        }
        let ids: Vec<u64> = ids_in_order(&self.clients);
        if ids == sim_loop.client_ids {
            assert(ids@ =~= sim_loop.client_ids@);
        } else {
            sim_loop.receivers = self.receivers_of(&ids);
            sim_loop.client_ids = ids;
        }
        if sim_loop.receivers.len() == 0 {
            LoopStep::Sleep(IDLE_SLEEP_MS)
        } else {
            LoopStep::Wait(SELECT_TIMEOUT_MS)
        }
    }

    /// Passes `msg` to the simulation and offers its replies to every client. A message that the
    /// simulation refuses has no reply.
    fn pass_on(&mut self, msg: ClientMsg, Ghost(ready): Ghost<Set<u64>>)
        ensures
            passed_on(old(self).world(ready), msg, final(self).world(ready)),
            final(self).next_client_id == old(self).next_client_id,
            final(self).shutdown_flag == old(self).shutdown_flag,
            old(self).well_formed() ==> final(self).well_formed(),
    {
        let reply: Result<Vec<ServerMsg>, SimError> = self.sim.handle_message(msg);
        let ghost told = reply;
        if let Ok(msgs) = reply {
            self.offer_all(&msgs);
        }
        proof {
            let pre = old(self).world(ready);
            let post = self.world(ready);
            assert(S::handles(pre.sim, msg, post.sim, told));
            match told {
                Ok(msgs) => assert(all_offered(pre.clients, msgs@, post.clients)),
                Err(_) => assert(post.clients == pre.clients),
            }
        }
    }

    /// `post`, `post_loop` and `turn` come from this server and `pre_loop` by an event and a look
    /// at the barrier. An event that stops the loop changes nothing.
    pub open spec fn turned(
        self,
        pre_loop: SimLoop,
        event: LoopEvent,
        turn: LoopTurn,
        post: Server<S>,
        post_loop: SimLoop,
    ) -> bool {
        &&& turn is Stop == stops(event)
        &&& turn is Stop ==> post == self && post_loop == pre_loop
        &&& !(turn is Stop) ==> exists|mid: World<S>|
            {
                &&& #[trigger] applied(
                    self.world(pre_loop.ready@),
                    pre_loop.client_ids@,
                    event,
                    mid,
                )
                &&& barrier_turn(mid, turn.tick(), post.world(post_loop.ready@))
            }
        &&& post_loop.client_ids == pre_loop.client_ids
        &&& post_loop.receivers == pre_loop.receivers
        &&& post.next_client_id == self.next_client_id
        &&& post.shutdown_flag == self.shutdown_flag
    }

    /// The loop's reaction to an event, followed by a look at the barrier.
    pub fn handle(&mut self, sim_loop: &mut SimLoop, event: LoopEvent) -> (turn: LoopTurn)
        requires
            event.position() matches Some(index) ==> index < old(sim_loop).client_ids@.len(),
        ensures
            old(self).turned(*old(sim_loop), event, turn, *final(self), *final(sim_loop)),
            old(self).well_formed() ==> final(self).well_formed(),
            old(self).heard_by(*old(sim_loop)) ==> final(self).heard_by(*final(sim_loop)),
    {
        let ghost ids = sim_loop.client_ids@;
        match event {
            LoopEvent::Message(index, msg) => {
                let client_id: u64 = sim_loop.client_ids[index];
                match msg.body {
                    Some(ClientMsgBody::Shutdown(_)) => {
                        return LoopTurn::Stop;
                    },
                    Some(ClientMsgBody::StepReady(_)) => {
                        sim_loop.ready.insert(client_id);
                    },
                    _ => {
                        self.pass_on(msg, Ghost(sim_loop.ready@));
                    },
                }
            },
            LoopEvent::Disconnected(index) => {
                self.unregister_client(sim_loop.client_ids[index]);
            },
            LoopEvent::Timeout => {},
        }
        let ghost mid = self.world(sim_loop.ready@);
        assert(applied(old(self).world(old(sim_loop).ready@), ids, event, mid));
        let tick: Option<Tick> = self.maybe_step_simulation(&mut sim_loop.ready);
        proof {
            if old(self).heard_by(*old(sim_loop)) {
                law_turn_keeps_listening(
                    old(self).world(old(sim_loop).ready@),
                    ids,
                    event,
                    mid,
                    tick,
                    self.world(sim_loop.ready@),
                    sim_loop.receivers@,
                );
            }
        }
        match tick {
            Some(tick) => LoopTurn::Stepped(tick),
            None => LoopTurn::Continue,
        }
    }

    /// The end of the loop: every client is dropped, which closes its channels.
    pub fn finish(&mut self)
        ensures
            old(self).finished(*final(self)),
            final(self).well_formed(),
    {
        clear(&mut self.clients);
    }
}

impl SimLoop {
    /// `post` and `event` come from this loop by waiting for a message.
    pub open spec fn waited(self, timeout_ms: u64, event: LoopEvent, post: SimLoop) -> bool {
        &&& post.ready == self.ready
        &&& self.same_ears(post)
        &&& event.position() matches Some(i) ==> i < self.receivers@.len()
        &&& forall|i: int|
            0 <= i < self.receivers@.len() ==> request_receives(#[trigger] post.receivers@[i])
                == request_receives(self.receivers@[i]) + event.received_at(i)
        &&& forall|i: int|
            0 <= i < self.receivers@.len() ==> request_waits(#[trigger] post.receivers@[i])
                == request_waits(self.receivers@[i]).push(timeout_ms)
    }

    /// `post` listens to the same clients on the same channels.
    pub open spec fn same_ears(self, post: SimLoop) -> bool {
        &&& post.client_ids == self.client_ids
        &&& post.receivers@.len() == self.receivers@.len()
        &&& forall|i: int|
            0 <= i < self.receivers@.len() ==> requests_from(#[trigger] post.receivers@[i])
                == requests_from(self.receivers@[i])
    }

    /// The loop listens to each of its clients at one receiver.
    pub open spec fn paired(self) -> bool {
        self.receivers@.len() == self.client_ids@.len()
    }

    /// True of a loop that has heard of no client.
    pub open spec fn is_new(self) -> bool {
        &&& self.ready@ == Set::<u64>::empty()
        &&& self.client_ids@.len() == 0
        &&& self.receivers@.len() == 0
    }
}

/// A call that changes who is registered.
pub enum RegistryCall {
    Register {
        local: bool,
        step_participant: bool,
        client_id: u64,
        to_server: Sender<ClientMsg>,
        from_server: Receiver<ServerMsg>,
    },
    Unregister { client_id: u64 },
}

/// A call, with the server before and after it.
pub struct RegistryStep<S: Simulation> {
    pub pre: Server<S>,
    pub call: RegistryCall,
    pub post: Server<S>,
}

impl<S: Simulation> RegistryStep<S> {
    /// The server changes as the call says.
    pub open spec fn is_valid(self) -> bool {
        match self.call {
            RegistryCall::Register {
                local,
                step_participant,
                client_id,
                to_server,
                from_server,
            } => self.pre.registers(
                local,
                step_participant,
                client_id,
                to_server,
                from_server,
                self.post,
            ),
            RegistryCall::Unregister { client_id } => self.pre.forgets(client_id, self.post),
        }
    }
}

/// `steps` follow one another, from a server that has just been made.
pub open spec fn is_registry_history<S: Simulation>(steps: Seq<RegistryStep<S>>) -> bool {
    &&& steps.len() > 0 ==> steps[0].pre.is_new(steps[0].pre.sim)
    &&& forall|i: int| 0 <= i < steps.len() ==> (#[trigger] steps[i]).is_valid()
    &&& forall|i: int, j: int|
        0 <= i < steps.len() && j == i + 1 && j < steps.len() ==> (#[trigger] steps[j]).pre == (
        #[trigger] steps[i]).post
}

/// The number of registrations among the first `n` steps.
pub open spec fn registrations<S: Simulation>(steps: Seq<RegistryStep<S>>, n: int) -> nat
    decreases n,
{
    if n <= 0 {
        0
    } else {
        registrations(steps, n - 1) + if steps[n - 1].call is Register {
            1nat
        } else {
            0nat
        }
    }
}

/// The next id is one more than the number of registrations so far, and no registered client has
/// it.
proof fn lemma_next_id_counts_registrations<S: Simulation>(steps: Seq<RegistryStep<S>>, n: int)
    requires
        is_registry_history(steps),
        0 <= n < steps.len(),
        registrations(steps, n) < u64::MAX,
    ensures
        steps[n].pre.next_client_id == registrations(steps, n) + 1,
        steps[n].pre.well_formed(),
    decreases n,
{
    if n > 0 {
        lemma_next_id_counts_registrations(steps, n - 1);
        let before = steps[n - 1];
        assert(steps[n].pre == before.post);
        assert(before.is_valid());
        if before.call is Register {
            let id = before.call->Register_client_id;
            let old_clients = clients_in(before.pre.clients);
            let new_clients = clients_in(before.post.clients);
            assert forall|other: u64| #[trigger]
                new_clients.dom().contains(other) && other != id implies old_clients.dom().contains(
                other,
            ) && new_clients[other] == old_clients[other] by {
                assert(new_clients.remove(id)[other] == new_clients[other]);
                assert(old_clients.remove(id)[other] == old_clients[other]);
            }
        }
    }
}

/// Earlier steps have seen no more registrations.
proof fn lemma_registrations_grow<S: Simulation>(steps: Seq<RegistryStep<S>>, m: int, n: int)
    requires
        0 <= m <= n,
    ensures
        registrations(steps, m) <= registrations(steps, n),
    decreases n - m,
{
    if m < n {
        lemma_registrations_grow(steps, m, n - 1);
    }
}

/// Ids are given once: after any sequence of registrations and removals the next client gets the
/// number of registrations so far plus one. That id was never given out before, not even to a
/// client that has left, and exactly this client is added, with its role and its channels. This
/// is as long as the ids last.
pub proof fn law_server_ids_are_given_once<S: Simulation>(steps: Seq<RegistryStep<S>>, n: int)
    requires
        is_registry_history(steps),
        0 <= n < steps.len(),
        steps[n].call is Register,
        registrations(steps, n) < u64::MAX,
    ensures
        ({
            let pre = clients_in(steps[n].pre.clients);
            let post = clients_in(steps[n].post.clients);
            let call = steps[n].call;
            let id = call->Register_client_id;
            &&& id == registrations(steps, n) + 1
            &&& forall|j: int|
                0 <= j < n && (#[trigger] steps[j]).call is Register
                    ==> steps[j].call->Register_client_id < id
            &&& !pre.dom().contains(id)
            &&& post == pre.insert(id, post[id])
            &&& is_registration(
                post[id],
                call->local,
                call->step_participant,
                call->to_server,
                call->from_server,
            )
        }),
{
    lemma_next_id_counts_registrations(steps, n);
    assert(steps[n].is_valid());
    let id = steps[n].call->Register_client_id;
    let pre = clients_in(steps[n].pre.clients);
    let post = clients_in(steps[n].post.clients);
    assert forall|j: int| 0 <= j < n && (#[trigger] steps[j]).call is Register implies
        steps[j].call->Register_client_id < id by {
        lemma_registrations_grow(steps, j + 1, n);
        assert(registrations(steps, j + 1) == registrations(steps, j) + 1);
        lemma_next_id_counts_registrations(steps, j);
        assert(steps[j].is_valid());
    }
    assert(post =~= pre.insert(id, post[id])) by {
        assert forall|other: u64| #[trigger] post.dom().contains(other) && other != id implies
            post[other] == pre[other] by {
            assert(post.remove(id)[other] == post[other]);
            assert(pre.remove(id)[other] == pre[other]);
        }
    }
}

/// A look at the clients lets the loop listen to all of them: if what it knew was right before, it
/// now listens to every client that is registered, on that client's own channel, and to no other.
pub proof fn law_refresh_listens_to_every_client<S: Simulation>(
    server: Server<S>,
    pre: SimLoop,
    step: LoopStep,
    post: SimLoop,
)
    requires
        server.well_formed(),
        server.heard_by(pre),
        server.refreshed(pre, step, post),
        !server.shutdown_flag,
    ensures
        server.heard_by(post),
        post.receivers@.len() == post.client_ids@.len(),
        forall|id: u64| #[trigger]
            clients_in(server.clients).dom().contains(id) ==> exists|i: int|
                {
                    &&& 0 <= i < post.client_ids@.len()
                    &&& #[trigger] post.client_ids@[i] == id
                    &&& requests_from(post.receivers@[i]) == requests_from(
                        clients_in(server.clients)[id].inbound_rx,
                    )
                },
        forall|i: int|
            0 <= i < post.client_ids@.len() ==> clients_in(server.clients).dom().contains(
                #[trigger] post.client_ids@[i],
            ),
{
    let clients = clients_in(server.clients);
    let ids = post.client_ids@;
    assert forall|i: int| 0 <= i < ids.len() implies clients.dom().contains(#[trigger] ids[i]) by {
        assert(ids.to_set().contains(ids[i]));
    }
    assert forall|id: u64| #[trigger] clients.dom().contains(id) implies exists|i: int|
        {
            &&& 0 <= i < ids.len()
            &&& #[trigger] ids[i] == id
            &&& requests_from(post.receivers@[i]) == requests_from(clients[id].inbound_rx)
        } by {
        assert(ids.to_set().contains(id));
        let i = choose|i: int| 0 <= i < ids.len() && ids[i] == id;
        assert(requests_from(post.receivers@[i]) == requests_from(clients[id].inbound_rx));
    }
}

/// Clients that join and leave do not make wrong what the loop knows, as long as the ids last.
pub proof fn law_registry_calls_keep_listening<S: Simulation>(
    step: RegistryStep<S>,
    sim_loop: SimLoop,
)
    requires
        step.pre.heard_by(sim_loop),
        step.is_valid(),
        step.call is Register ==> step.pre.next_client_id < u64::MAX,
    ensures
        step.post.heard_by(sim_loop),
{
    let before = clients_in(step.pre.clients);
    let after = clients_in(step.post.clients);
    let ids = sim_loop.client_ids@;
    assert forall|id: u64| #[trigger] ids.contains(id) && after.dom().contains(id) implies
        before.dom().contains(id) && requests_from(after[id].inbound_rx) == requests_from(
        before[id].inbound_rx,
    ) by {
        let i = choose|i: int| 0 <= i < ids.len() && ids[i] == id;
        assert(ids[i] < step.pre.next_client_id);
        if step.call is Register {
            let new_id = step.call->Register_client_id;
            assert(after.remove(new_id)[id] == after[id]);
            assert(before.remove(new_id)[id] == before[id]);
        }
    }
    law_listening_survives_change(sim_loop.receivers@, ids, before, after);
}

/// Waiting for a message does not make wrong what the loop knows.
pub proof fn law_waiting_keeps_listening<S: Simulation>(
    server: Server<S>,
    pre: SimLoop,
    post: SimLoop,
)
    requires
        server.heard_by(pre),
        pre.same_ears(post),
    ensures
        server.heard_by(post),
{
}

} // verus!
