//! What the simulation loop does, in terms of the registered clients, the clients that are ready
//! and the simulation; and what follows for the step barrier.

use crate::channel::{
    event_receives, event_sends, events_from, events_into, request_sends, requests_from,
    requests_into,
};
use crate::interface::{ClientMsg, ServerMsg, SimError, Simulation, Tick};
use crate::registry::{participants, ClientInfo};
use crossbeam_channel::{Receiver, Sender};
use vstd::prelude::*;

verus! {

/// What came out of waiting for the clients.
pub enum LoopEvent {
    /// A message of the client at this position.
    Message(usize, ClientMsg),
    /// The client at this position is gone.
    Disconnected(usize),
    /// Nothing came in time.
    Timeout,
}

impl LoopEvent {
    /// The event that a wait amounts to which gave `ready`: the position of the client that was
    /// heard and what it sent, where none means that it is gone; or nothing in time.
    pub open spec fn of_wait(ready: Option<(usize, Option<ClientMsg>)>) -> LoopEvent {
        match ready {
            Some((index, Some(msg))) => LoopEvent::Message(index, msg),
            Some((index, None)) => LoopEvent::Disconnected(index),
            None => LoopEvent::Timeout,
        }
    }

    /// The event that a wait amounts to which gave `ready`.
    pub fn from_wait(ready: Option<(usize, Option<ClientMsg>)>) -> (event: LoopEvent)
        ensures
            event == LoopEvent::of_wait(ready),
    {
        match ready {
            Some((index, Some(msg))) => LoopEvent::Message(index, msg),
            Some((index, None)) => LoopEvent::Disconnected(index),
            None => LoopEvent::Timeout,
        }
    }

    /// The position of the client that the event is about.
    pub open spec fn position(self) -> Option<usize> {
        match self {
            LoopEvent::Message(index, _) => Some(index),
            LoopEvent::Disconnected(index) => Some(index),
            LoopEvent::Timeout => None,
        }
    }

    /// What the receiver at position `i` gave for this event.
    pub open spec fn received_at(self, i: int) -> Seq<Option<ClientMsg>> {
        match self {
            LoopEvent::Message(index, msg) if index == i => seq![Some(msg)],
            LoopEvent::Disconnected(index) if index == i => seq![None],
            _ => Seq::empty(),
        }
    }
}

/// `info` is the entry of a client that was just registered with the handles `to_server` and
/// `from_server`: each handle is on the same channel as its counterpart in `info`, nothing has
/// been sent either way, and the sender of requests is kept unless the client is local.
pub open spec fn is_registration(
    info: ClientInfo,
    local: bool,
    step_participant: bool,
    to_server: Sender<ClientMsg>,
    from_server: Receiver<ServerMsg>,
) -> bool {
    &&& info.step_participant == step_participant
    &&& info.inbound_tx is None == local
    &&& info.inbound_tx is Some ==> requests_into(info.inbound_tx->0) == requests_into(to_server)
    &&& requests_from(info.inbound_rx) == requests_into(to_server)
    &&& requests_into(to_server).capacity is None
    &&& events_into(info.outbound_tx) == events_from(from_server)
    &&& events_from(info.outbound_rx) == events_from(from_server)
    &&& events_from(from_server).capacity is None
    &&& request_sends(to_server).len() == 0
    &&& event_receives(from_server).len() == 0
    &&& info.is_unused()
}

/// True if every client of `before` is in `after`, having been offered `msgs`, and no other.
pub open spec fn all_offered(
    before: Map<u64, ClientInfo>,
    msgs: Seq<ServerMsg>,
    after: Map<u64, ClientInfo>,
) -> bool {
    &&& after.dom() == before.dom()
    &&& forall|id: u64| #[trigger]
        before.dom().contains(id) ==> before[id].after_offer(msgs, after[id])
}

/// The clients among `ready` that are still registered.
pub open spec fn live(ready: Set<u64>, clients: Map<u64, ClientInfo>) -> Set<u64> {
    ready.intersect(clients.dom())
}

/// The barrier is met: there are participants, and every one of them is ready. Whether other
/// clients have reported does not matter.
pub open spec fn barrier_met(ready: Set<u64>, clients: Map<u64, ClientInfo>) -> bool {
    participants(clients).len() > 0 && participants(clients).subset_of(ready)
}

/// `post` comes from `pre` by one step of the simulation, whatever the step reported.
pub open spec fn stepped<S: Simulation>(pre: S, post: S) -> bool {
    exists|outcome: Result<(), SimError>| S::steps(pre, post, outcome)
}

/// `ids` are the registered clients, in increasing order.
pub open spec fn sorted_ids(ids: Seq<u64>, clients: Map<u64, ClientInfo>) -> bool {
    &&& forall|i: int, j: int| 0 <= i < j < ids.len() ==> ids[i] < ids[j]
    &&& ids.to_set() == clients.dom()
}

/// `receivers` listen, position by position, to those of the clients `ids` that are registered.
pub open spec fn listens_to(
    receivers: Seq<Receiver<ClientMsg>>,
    ids: Seq<u64>,
    clients: Map<u64, ClientInfo>,
) -> bool {
    &&& receivers.len() == ids.len()
    &&& forall|i: int|
        0 <= i < ids.len() && clients.dom().contains(ids[i]) ==> requests_from(
            #[trigger] receivers[i],
        ) == requests_from(clients[ids[i]].inbound_rx)
}

/// What the loop acts on: the registered clients, those that are ready, and the simulation.
pub struct World<S> {
    pub clients: Map<u64, ClientInfo>,
    pub ready: Set<u64>,
    pub sim: S,
}

/// The event makes the loop stop: a client asks for it. A loop without clients goes on, so that
/// clients can come back.
pub open spec fn stops(event: LoopEvent) -> bool {
    event matches LoopEvent::Message(_, msg) && msg.is_shutdown()
}

/// `post` comes from `pre` by passing `msg` to the simulation and offering its replies, if it
/// gave any, to every client.
pub open spec fn passed_on<S: Simulation>(pre: World<S>, msg: ClientMsg, post: World<S>) -> bool {
    &&& post.ready == pre.ready
    &&& exists|reply: Result<Vec<ServerMsg>, SimError>|
        {
            &&& #[trigger] S::handles(pre.sim, msg, post.sim, reply)
            &&& match reply {
                Ok(msgs) => all_offered(pre.clients, msgs@, post.clients),
                Err(_) => post.clients == pre.clients,
            }
        }
}

/// `post` comes from `pre` by an event, before the barrier is looked at. `ids` are the clients
/// that the loop listens to.
pub open spec fn applied<S: Simulation>(
    pre: World<S>,
    ids: Seq<u64>,
    event: LoopEvent,
    post: World<S>,
) -> bool {
    match event {
        LoopEvent::Message(index, msg) => if msg.is_step_ready() {
            post == (World { ready: pre.ready.insert(ids[index as int]), ..pre })
        } else {
            passed_on(pre, msg, post)
        },
        LoopEvent::Disconnected(index) => {
            post == (World { clients: pre.clients.remove(ids[index as int]), ..pre })
        },
        LoopEvent::Timeout => post == pre,
    }
}

/// `post` comes from `pre` by looking at the barrier. Clients that are gone are forgotten. If the
/// barrier is met, the simulation steps, every client is offered the tick, and nobody is ready
/// any more; else nothing happens.
pub open spec fn barrier_turn<S: Simulation>(
    pre: World<S>,
    tick: Option<Tick>,
    post: World<S>,
) -> bool {
    if barrier_met(pre.ready, pre.clients) {
        &&& tick is Some
        &&& stepped(pre.sim, post.sim)
        &&& post.sim.shows(tick->0)
        &&& all_offered(pre.clients, seq![ServerMsg::of_tick(tick->0)], post.clients)
        &&& post.ready == Set::<u64>::empty()
    } else {
        &&& tick is None
        &&& post == (World { ready: live(pre.ready, pre.clients), ..pre })
    }
}

/// The simulation steps exactly when there is a participant and every participant is ready.
pub proof fn law_step_needs_every_participant(ready: Set<u64>, clients: Map<u64, ClientInfo>)
    requires
        clients.dom().finite(),
    ensures
        barrier_met(ready, clients) <==> {
            &&& exists|id: u64| #[trigger] participants(clients).contains(id)
            &&& forall|id: u64| #[trigger]
                participants(clients).contains(id) ==> ready.contains(id)
        },
{
    let needed = participants(clients);
    if exists|id: u64| #[trigger] needed.contains(id) {
        let id = choose|id: u64| #[trigger] needed.contains(id);
        assert(needed.remove(id).len() + 1 == needed.len());
    } else {
        assert(needed =~= Set::<u64>::empty());
    }
}

/// A participant that is not ready, such as one that has just joined, holds the simulation back.
pub proof fn law_unready_participant_holds_the_step(
    ready: Set<u64>,
    clients: Map<u64, ClientInfo>,
    id: u64,
)
    requires
        participants(clients).contains(id),
        !ready.contains(id),
    ensures
        !barrier_met(ready, clients),
{
}

/// When the participant that the others wait for leaves, the barrier is met.
pub proof fn law_leaving_releases_the_barrier(
    ready: Set<u64>,
    clients: Map<u64, ClientInfo>,
    id: u64,
)
    requires
        participants(clients).remove(id).len() > 0,
        participants(clients).remove(id).subset_of(ready),
    ensures
        barrier_met(ready, clients.remove(id)),
{
    assert(participants(clients.remove(id)) =~= participants(clients).remove(id));
}

/// A client that is not a participant neither holds the simulation back nor releases it: not by
/// being there, not by reporting, and not by leaving.
pub proof fn law_viewers_do_not_count(ready: Set<u64>, clients: Map<u64, ClientInfo>, id: u64)
    requires
        !participants(clients).contains(id),
    ensures
        barrier_met(ready, clients.remove(id)) == barrier_met(ready, clients),
        barrier_met(ready.insert(id), clients) == barrier_met(ready, clients),
        barrier_met(ready.remove(id), clients) == barrier_met(ready, clients),
{
    assert(participants(clients.remove(id)) =~= participants(clients));
    assert forall|other: u64| #[trigger] participants(clients).contains(other) implies (
    ready.insert(id).contains(other) == ready.contains(other)) && (ready.remove(id).contains(other)
        == ready.contains(other)) by {}
}

/// A look at the barrier changes neither who is registered nor who participates, and leaves
/// nobody ready who is not registered.
pub proof fn law_barrier_keeps_the_clients<S: Simulation>(
    pre: World<S>,
    tick: Option<Tick>,
    post: World<S>,
)
    requires
        barrier_turn(pre, tick, post),
    ensures
        post.clients.dom() == pre.clients.dom(),
        participants(post.clients) == participants(pre.clients),
        post.ready.subset_of(post.clients.dom()),
{
    assert forall|id: u64| participants(post.clients).contains(id) == #[trigger] participants(
        pre.clients,
    ).contains(id) by {
        if pre.clients.dom().contains(id) && tick is Some {
            assert(pre.clients[id].after_offer(
                seq![ServerMsg::of_tick(tick->0)],
                post.clients[id],
            ));
        }
    }
    assert(participants(post.clients) =~= participants(pre.clients));
}

/// Each step tells every registered client the new tick, once.
pub proof fn law_step_reaches_every_client<S: Simulation>(
    pre: World<S>,
    tick: Tick,
    post: World<S>,
    id: u64,
)
    requires
        barrier_turn(pre, Some(tick), post),
        pre.clients.dom().contains(id),
    ensures
        post.clients.dom().contains(id),
        event_sends(post.clients[id].outbound_tx) == event_sends(pre.clients[id].outbound_tx).push(
            event_sends(post.clients[id].outbound_tx).last(),
        ),
        event_sends(post.clients[id].outbound_tx).last().0 == ServerMsg::of_tick(tick),
{
    let msgs = seq![ServerMsg::of_tick(tick)];
    assert(pre.clients[id].after_offer(msgs, post.clients[id]));
    let before = event_sends(pre.clients[id].outbound_tx);
    let after = event_sends(post.clients[id].outbound_tx);
    assert(after[before.len() + 0int].0 == msgs[0]);
    assert(after =~= after.take(before.len() as int).push(after.last()));
}

/// One round, one step: after a step, another look at the barrier does nothing until a client
/// reports again.
pub proof fn law_one_step_per_round<S: Simulation>(
    pre: World<S>,
    tick: Tick,
    post: World<S>,
    next_tick: Option<Tick>,
    next: World<S>,
)
    requires
        barrier_turn(pre, Some(tick), post),
        barrier_turn(post, next_tick, next),
    ensures
        next_tick is None,
        next == post,
{
    law_barrier_keeps_the_clients(pre, Some(tick), post);
    assert(live(post.ready, post.clients) =~= Set::<u64>::empty());
    if barrier_met(post.ready, post.clients) {
        assert(participants(post.clients) =~= Set::<u64>::empty());
    }
}

/// The receivers of the loop stay those of its clients while clients leave, are offered messages,
/// or join under ids that the loop has not heard of.
pub proof fn law_listening_survives_change(
    receivers: Seq<Receiver<ClientMsg>>,
    ids: Seq<u64>,
    before: Map<u64, ClientInfo>,
    after: Map<u64, ClientInfo>,
)
    requires
        listens_to(receivers, ids, before),
        forall|id: u64| #[trigger]
            ids.contains(id) && after.dom().contains(id) ==> before.dom().contains(id)
                && requests_from(after[id].inbound_rx) == requests_from(before[id].inbound_rx),
    ensures
        listens_to(receivers, ids, after),
{
    assert forall|i: int|
        0 <= i < ids.len() && after.dom().contains(ids[i]) implies requests_from(
        #[trigger] receivers[i],
    ) == requests_from(after[ids[i]].inbound_rx) by {
        assert(ids.contains(ids[i]));
    }
}

/// A turn of the loop changes nothing at which client each receiver listens to.
pub proof fn law_turn_keeps_listening<S: Simulation>(
    pre: World<S>,
    ids: Seq<u64>,
    event: LoopEvent,
    mid: World<S>,
    tick: Option<Tick>,
    post: World<S>,
    receivers: Seq<Receiver<ClientMsg>>,
)
    requires
        applied(pre, ids, event, mid),
        barrier_turn(mid, tick, post),
        listens_to(receivers, ids, pre.clients),
    ensures
        listens_to(receivers, ids, post.clients),
{
    assert forall|id: u64| #[trigger] mid.clients.dom().contains(id) implies
        pre.clients.dom().contains(id) && mid.clients[id].inbound_rx
        == pre.clients[id].inbound_rx by {
        if let LoopEvent::Message(_, msg) = event {
            if !msg.is_step_ready() {
                let reply = choose|reply: Result<Vec<ServerMsg>, SimError>|
                    {
                        &&& #[trigger] S::handles(pre.sim, msg, mid.sim, reply)
                        &&& match reply {
                            Ok(msgs) => all_offered(pre.clients, msgs@, mid.clients),
                            Err(_) => mid.clients == pre.clients,
                        }
                    };
                if let Ok(msgs) = reply {
                    assert(pre.clients[id].after_offer(msgs@, mid.clients[id]));
                }
            }
        }
    }
    assert forall|id: u64| #[trigger] post.clients.dom().contains(id) implies
        mid.clients.dom().contains(id) && post.clients[id].inbound_rx
        == mid.clients[id].inbound_rx by {
        if let Some(tick) = tick {
            assert(mid.clients[id].after_offer(seq![ServerMsg::of_tick(tick)], post.clients[id]));
        }
    }
    law_listening_survives_change(receivers, ids, pre.clients, post.clients);
}

/// The event is the report of client `id` that it is ready.
pub open spec fn reports(event: LoopEvent, ids: Seq<u64>, id: u64) -> bool {
    event matches LoopEvent::Message(index, msg) && msg.is_step_ready() && ids[index as int] == id
}

/// Lockstep: a tick is given in a turn only if each participant had reported before the turn, and
/// after the last tick, or reports in the turn; and nobody becomes ready but by its own report.
pub proof fn law_tick_follows_the_reports<S: Simulation>(
    pre: World<S>,
    ids: Seq<u64>,
    event: LoopEvent,
    mid: World<S>,
    tick: Option<Tick>,
    post: World<S>,
)
    requires
        applied(pre, ids, event, mid),
        barrier_turn(mid, tick, post),
    ensures
        tick is Some ==> forall|id: u64| #[trigger]
            participants(mid.clients).contains(id) ==> pre.ready.contains(id) || reports(
                event,
                ids,
                id,
            ),
        tick is Some ==> post.ready == Set::<u64>::empty(),
        forall|id: u64| #[trigger]
            post.ready.contains(id) ==> pre.ready.contains(id) || reports(event, ids, id),
{
    assert forall|id: u64| #[trigger] mid.ready.contains(id) implies pre.ready.contains(id)
        || reports(event, ids, id) by {}
}

/// One turn of the loop: an event, and a look at the barrier.
pub struct Turn<S> {
    pub pre: World<S>,
    /// The clients that the loop listens to.
    pub ids: Seq<u64>,
    pub event: LoopEvent,
    /// Between the event and the look at the barrier.
    pub mid: World<S>,
    pub tick: Option<Tick>,
    pub post: World<S>,
}

/// `turns` follow one another. Clients may join and leave between two turns.
pub open spec fn is_run<S: Simulation>(turns: Seq<Turn<S>>) -> bool {
    &&& forall|i: int|
        0 <= i < turns.len() ==> {
            let turn = #[trigger] turns[i];
            &&& applied(turn.pre, turn.ids, turn.event, turn.mid)
            &&& barrier_turn(turn.mid, turn.tick, turn.post)
        }
    &&& forall|i: int, j: int|
        0 <= i < turns.len() && j == i + 1 && j < turns.len() ==> (#[trigger] turns[j]).pre.ready
            == (#[trigger] turns[i]).post.ready
}

/// Client `id` reported in turn `j`, and no turn from then up to turn `n` gave a tick.
pub open spec fn waits_since<S>(turns: Seq<Turn<S>>, id: u64, j: int, n: int) -> bool {
    &&& 0 <= j <= n
    &&& reports(turns[j].event, turns[j].ids, id)
    &&& forall|k: int| j <= k < n ==> (#[trigger] turns[k]).tick is None
}

/// A client that is ready has reported, and there has been no tick since.
proof fn lemma_ready_clients_wait<S: Simulation>(turns: Seq<Turn<S>>, n: int, id: u64)
    requires
        is_run(turns),
        0 <= n < turns.len(),
        turns[0].pre.ready == Set::<u64>::empty(),
        turns[n].mid.ready.contains(id),
    ensures
        exists|j: int| waits_since(turns, id, j, n),
    decreases n,
{
    if reports(turns[n].event, turns[n].ids, id) {
        assert(waits_since(turns, id, n, n));
    } else {
        assert(turns[n].pre.ready.contains(id));
        assert(turns[n].pre.ready == turns[n - 1].post.ready);
        lemma_ready_clients_wait(turns, n - 1, id);
        let m = n - 1;
        let j = choose|j: int| waits_since(turns, id, j, m);
        assert(waits_since(turns, id, j, n));
    }
}

/// Lockstep over a whole run: when a turn gives a tick, every participant has reported since the
/// tick before it.
pub proof fn law_participants_move_in_lockstep<S: Simulation>(
    turns: Seq<Turn<S>>,
    n: int,
    id: u64,
)
    requires
        is_run(turns),
        0 <= n < turns.len(),
        turns[0].pre.ready == Set::<u64>::empty(),
        turns[n].tick is Some,
        participants(turns[n].mid.clients).contains(id),
    ensures
        exists|j: int| waits_since(turns, id, j, n),
{
    assert(turns[n].mid.ready.contains(id));
    lemma_ready_clients_wait(turns, n, id);
}

} // verus!
