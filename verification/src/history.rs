//! What holds over any history of a server and its loop, while clients join, report, send
//! messages and leave.
//!
//! The laws speak of what the clients did and of what was sent to them, not of the books that the
//! server keeps about it.

use crate::barrier::{
    all_offered, applied, barrier_met, barrier_turn, law_step_needs_every_participant, LoopEvent,
    World,
};
use crate::channel::{
    event_receives, event_sends, events_from, events_into, request_receives, request_sends,
    requests_from, requests_into,
};
use crate::interface::{
    ClientMsg, ClientMsgBody, ServerMsg, ServerMsgBody, SimError, Simulation, Tick,
};
use crate::registry::{clients_in, participants, ClientInfo};
use crate::server::{LoopStep, LoopTurn, Server, SimLoop};
use crossbeam_channel::{Receiver, Sender};
use vstd::prelude::*;

verus! {

/// A call on a server or its loop, with what it came to.
pub enum LoopCall {
    Refresh { step: LoopStep },
    Wait { timeout_ms: u64, event: LoopEvent },
    Handle { event: LoopEvent, turn: LoopTurn },
    Register {
        local: bool,
        step_participant: bool,
        client_id: u64,
        to_server: Sender<ClientMsg>,
        from_server: Receiver<ServerMsg>,
    },
    Unregister { client_id: u64 },
    Shutdown,
}

/// A call, with the server and its loop before and after it.
pub struct Moment<S: Simulation> {
    pub pre: Server<S>,
    pub pre_loop: SimLoop,
    pub call: LoopCall,
    pub post: Server<S>,
    pub post_loop: SimLoop,
}

impl<S: Simulation> Moment<S> {
    /// The server and its loop change as the call says.
    pub open spec fn is_valid(self) -> bool {
        match self.call {
            LoopCall::Refresh { step } => {
                &&& self.pre.refreshed(self.pre_loop, step, self.post_loop)
                &&& self.post == self.pre
            },
            LoopCall::Wait { timeout_ms, event } => {
                &&& self.pre_loop.waited(timeout_ms, event, self.post_loop)
                &&& self.post == self.pre
            },
            LoopCall::Handle { event, turn } => {
                &&& event.position() matches Some(i) ==> i < self.pre_loop.client_ids@.len()
                &&& self.pre.turned(self.pre_loop, event, turn, self.post, self.post_loop)
            },
            LoopCall::Register {
                local,
                step_participant,
                client_id,
                to_server,
                from_server,
            } => {
                &&& self.pre.next_client_id < u64::MAX
                &&& self.pre.registers(
                    local,
                    step_participant,
                    client_id,
                    to_server,
                    from_server,
                    self.post,
                )
                &&& self.post_loop == self.pre_loop
            },
            LoopCall::Unregister { client_id } => {
                &&& self.pre.forgets(client_id, self.post)
                &&& self.post_loop == self.pre_loop
            },
            LoopCall::Shutdown => {
                &&& self.pre.told_to_stop(self.post)
                &&& self.post_loop == self.pre_loop
            },
        }
    }

    /// The call takes a report of client `id` that it is ready.
    pub open spec fn is_report_of(self, id: u64) -> bool {
        self.call matches LoopCall::Handle { event: LoopEvent::Message(i, msg), .. }
            && self.pre_loop.client_ids@[i as int] == id && (msg.body matches Some(
            ClientMsgBody::StepReady(_),
        ))
    }

    /// The call gives a tick.
    pub open spec fn gives_tick(self) -> bool {
        self.call matches LoopCall::Handle { turn: LoopTurn::Stepped(_), .. }
    }

    /// The call is a turn of the loop that does not stop it.
    pub open spec fn is_turn(self) -> bool {
        self.call matches LoopCall::Handle { turn, .. } && !(turn is Stop)
    }

    /// Client `id` is registered after the call.
    pub open spec fn leaves(self, id: u64) -> bool {
        clients_in(self.post.clients).dom().contains(id)
    }

    /// Client `id` is registered and takes part in the barrier after the call.
    pub open spec fn leaves_participant(self, id: u64) -> bool {
        self.leaves(id) && clients_in(self.post.clients)[id].step_participant
    }
}

/// `moments` follow one another, from a server and a loop that have just been made.
pub open spec fn is_loop_history<S: Simulation>(moments: Seq<Moment<S>>) -> bool {
    &&& moments.len() > 0 ==> {
        &&& moments[0].pre.next_client_id == 1
        &&& clients_in(moments[0].pre.clients).dom() == Set::<u64>::empty()
        &&& moments[0].pre_loop.ready@ == Set::<u64>::empty()
        &&& moments[0].pre_loop.client_ids@.len() == 0
    }
    &&& forall|i: int| 0 <= i < moments.len() ==> (#[trigger] moments[i]).is_valid()
    &&& forall|i: int, j: int|
        0 <= i < moments.len() && j == i + 1 && j < moments.len() ==> {
            &&& (#[trigger] moments[j]).pre == (#[trigger] moments[i]).post
            &&& moments[j].pre_loop == moments[i].post_loop
        }
}

/// Client `id` reported in moment `j`, and no moment from then up to `n` gave a tick.
pub open spec fn has_report_since<S: Simulation>(
    moments: Seq<Moment<S>>,
    id: u64,
    j: int,
    n: int,
) -> bool {
    &&& 0 <= j <= n
    &&& moments[j].is_report_of(id)
    &&& forall|k: int| j <= k < n ==> !(#[trigger] moments[k]).gives_tick()
}

/// The ids of the loop are ids that have been given, and the clients are finitely many.
spec fn is_sound<S: Simulation>(server: Server<S>, sim_loop: SimLoop) -> bool {
    &&& forall|i: int|
        0 <= i < sim_loop.client_ids@.len() ==> #[trigger] sim_loop.client_ids@[i]
            < server.next_client_id
    &&& forall|id: u64| #[trigger]
        clients_in(server.clients).dom().contains(id) ==> id < server.next_client_id
    &&& clients_in(server.clients).dom().finite()
}

/// The barrier sees the same clients before and after it is looked at, with the same roles.
proof fn lemma_barrier_keeps_clients<S: Simulation>(
    mid: World<S>,
    tick: Option<Tick>,
    post: World<S>,
    id: u64,
)
    requires
        barrier_turn(mid, tick, post),
    ensures
        post.clients.dom() == mid.clients.dom(),
        mid.clients.dom().contains(id) ==> post.clients[id].step_participant
            == mid.clients[id].step_participant,
{
    if mid.clients.dom().contains(id) && tick is Some {
        assert(mid.clients[id].after_offer(
            seq![ServerMsg::of_tick(tick->0)],
            post.clients[id],
        ));
    }
}

/// A turn leaves no client that was not there before.
proof fn lemma_turn_adds_no_client<S: Simulation>(moment: Moment<S>)
    requires
        moment.is_valid(),
        moment.call is Handle,
    ensures
        forall|id: u64| #[trigger]
            clients_in(moment.post.clients).dom().contains(id) ==> clients_in(
                moment.pre.clients,
            ).dom().contains(id),
{
    let event = moment.call->Handle_event;
    let turn = moment.call->Handle_turn;
    let pre = moment.pre.world(moment.pre_loop.ready@);
    let post = moment.post.world(moment.post_loop.ready@);
    if !(turn is Stop) {
        let mid = choose|mid: World<S>| #[trigger]
            applied(pre, moment.pre_loop.client_ids@, event, mid) && barrier_turn(
                mid,
                turn.tick(),
                post,
            );
        assert(post.clients.dom() == mid.clients.dom());
        assert forall|id: u64| #[trigger] mid.clients.dom().contains(id) implies
            pre.clients.dom().contains(id) by {}
    }
}

/// Soundness is kept, ids only grow, and an id that has been given does not come back.
proof fn lemma_moment_is_sound<S: Simulation>(moment: Moment<S>)
    requires
        moment.is_valid(),
        is_sound(moment.pre, moment.pre_loop),
    ensures
        is_sound(moment.post, moment.post_loop),
        moment.pre.next_client_id <= moment.post.next_client_id,
        forall|id: u64| #[trigger]
            clients_in(moment.post.clients).dom().contains(id) && id < moment.pre.next_client_id
                ==> clients_in(moment.pre.clients).dom().contains(id),
{
    let before = clients_in(moment.pre.clients).dom();
    let after = clients_in(moment.post.clients).dom();
    match moment.call {
        LoopCall::Refresh { step } => {
            let ids = moment.post_loop.client_ids@;
            assert forall|i: int| 0 <= i < ids.len() implies #[trigger] ids[i]
                < moment.post.next_client_id by {
                if !moment.pre.shutdown_flag {
                    assert(ids.to_set().contains(ids[i]));
                }
            }
        },
        LoopCall::Handle { event, turn } => {
            lemma_turn_adds_no_client(moment);
            assert(after.subset_of(before));
            vstd::set_lib::lemma_set_subset_finite(before, after);
        },
        _ => {},
    }
}

/// Soundness holds all along a history.
proof fn lemma_history_is_sound<S: Simulation>(moments: Seq<Moment<S>>, n: int)
    requires
        is_loop_history(moments),
        0 <= n < moments.len(),
    ensures
        is_sound(moments[n].pre, moments[n].pre_loop),
        is_sound(moments[n].post, moments[n].post_loop),
    decreases n,
{
    if n > 0 {
        let m = n - 1;
        lemma_history_is_sound(moments, m);
        assert(moments[n].pre == moments[m].post);
    }
    lemma_moment_is_sound(moments[n]);
}

/// A client that is registered after a call is ready exactly if the call gave no tick and the
/// client was ready or has just reported. Nobody else becomes ready.
proof fn lemma_ready_follows_reports<S: Simulation>(moment: Moment<S>, id: u64)
    requires
        moment.is_valid(),
    ensures
        moment.post_loop.ready@.contains(id) ==> !moment.gives_tick() && (
        moment.pre_loop.ready@.contains(id) || moment.is_report_of(id)),
        moment.leaves(id) && !moment.gives_tick() && (moment.pre_loop.ready@.contains(id)
            || moment.is_report_of(id)) ==> moment.post_loop.ready@.contains(id),
{
    if moment.call is Handle {
        let event = moment.call->Handle_event;
        let turn = moment.call->Handle_turn;
        let pre = moment.pre.world(moment.pre_loop.ready@);
        let post = moment.post.world(moment.post_loop.ready@);
        if !(turn is Stop) {
            let mid = choose|mid: World<S>| #[trigger]
                applied(pre, moment.pre_loop.client_ids@, event, mid) && barrier_turn(
                    mid,
                    turn.tick(),
                    post,
                );
            assert(mid.ready.contains(id) <==> pre.ready.contains(id) || moment.is_report_of(id));
            assert(post.clients.dom() == mid.clients.dom());
        }
    }
}

/// A client that is registered now, under an id that was given before moment `j`, has been
/// registered since then.
proof fn lemma_stayed<S: Simulation>(moments: Seq<Moment<S>>, id: u64, j: int, n: int)
    requires
        is_loop_history(moments),
        0 <= j <= n < moments.len(),
        id < moments[j].pre.next_client_id,
        moments[n].leaves(id),
    ensures
        forall|k: int| j <= k <= n ==> (#[trigger] moments[k]).leaves(id),
        id < moments[n].pre.next_client_id,
    decreases n - j,
{
    if j < n {
        let m = n - 1;
        assert(moments[n].pre == moments[m].post);
        lemma_ids_grow(moments, j, n);
        lemma_history_is_sound(moments, n);
        lemma_moment_is_sound(moments[n]);
        assert(moments[m].leaves(id));
        lemma_stayed(moments, id, j, m);
    }
}

/// Ids only grow.
proof fn lemma_ids_grow<S: Simulation>(moments: Seq<Moment<S>>, j: int, n: int)
    requires
        is_loop_history(moments),
        0 <= j <= n < moments.len(),
    ensures
        moments[j].pre.next_client_id <= moments[n].pre.next_client_id,
    decreases n - j,
{
    if j < n {
        let m = n - 1;
        lemma_ids_grow(moments, j, m);
        lemma_history_is_sound(moments, m);
        lemma_moment_is_sound(moments[m]);
        assert(moments[n].pre == moments[m].post);
    }
}

/// A ready client has reported, and there has been no tick since.
proof fn lemma_ready_means_reported<S: Simulation>(moments: Seq<Moment<S>>, n: int, id: u64)
    requires
        is_loop_history(moments),
        0 <= n < moments.len(),
        moments[n].pre_loop.ready@.contains(id) || moments[n].is_report_of(id),
    ensures
        exists|j: int| has_report_since(moments, id, j, n),
    decreases n,
{
    if moments[n].is_report_of(id) {
        assert(has_report_since(moments, id, n, n));
    } else if n > 0 {
        let m = n - 1;
        assert(moments[n].pre_loop == moments[m].post_loop);
        assert(moments[m].is_valid());
        lemma_ready_follows_reports(moments[m], id);
        lemma_ready_means_reported(moments, m, id);
        let j = choose|j: int| has_report_since(moments, id, j, m);
        assert(has_report_since(moments, id, j, n));
    }
}

/// A report makes a client ready for as long as it stays and no tick is given.
proof fn lemma_reported_means_ready<S: Simulation>(
    moments: Seq<Moment<S>>,
    n: int,
    id: u64,
    j: int,
)
    requires
        is_loop_history(moments),
        0 <= n < moments.len(),
        has_report_since(moments, id, j, n),
        forall|k: int| j <= k < n ==> (#[trigger] moments[k]).leaves(id),
    ensures
        moments[n].pre_loop.ready@.contains(id) || moments[n].is_report_of(id),
    decreases n - j,
{
    if j < n {
        let m = n - 1;
        assert(has_report_since(moments, id, j, m)) by {
            assert forall|k: int| j <= k < m implies !(#[trigger] moments[k]).gives_tick() by {}
        }
        lemma_reported_means_ready(moments, m, id, j);
        assert(moments[m].leaves(id) && !moments[m].gives_tick());
        assert(moments[m].is_valid());
        lemma_ready_follows_reports(moments[m], id);
        assert(moments[n].pre_loop == moments[m].post_loop);
    }
}

/// The position of a report is that of a client that the loop has heard of.
proof fn lemma_reporter_was_known<S: Simulation>(moments: Seq<Moment<S>>, id: u64, j: int)
    requires
        is_loop_history(moments),
        0 <= j < moments.len(),
        moments[j].is_report_of(id),
    ensures
        id < moments[j].pre.next_client_id,
{
    lemma_history_is_sound(moments, j);
    assert(moments[j].is_valid());
    let event = moments[j].call->Handle_event;
    assert(event.position() == Some(event->Message_0));
    assert(moments[j].pre_loop.client_ids@[event->Message_0 as int] == id);
}

/// A report is kept until the next tick. Over any history, a client that is registered is ready
/// exactly if it has reported and no tick has been given since: looking at the clients, waiting,
/// and other clients that join, report, send messages or leave make no difference.
pub proof fn law_a_report_is_kept_until_the_tick<S: Simulation>(
    moments: Seq<Moment<S>>,
    n: int,
    id: u64,
)
    requires
        is_loop_history(moments),
        0 <= n < moments.len(),
        moments[n].leaves(id),
    ensures
        moments[n].post_loop.ready@.contains(id) <==> !moments[n].gives_tick() && exists|j: int|
            has_report_since(moments, id, j, n),
{
    assert(moments[n].is_valid());
    lemma_ready_follows_reports(moments[n], id);
    if moments[n].post_loop.ready@.contains(id) {
        lemma_ready_means_reported(moments, n, id);
    }
    if !moments[n].gives_tick() && exists|j: int| has_report_since(moments, id, j, n) {
        let j = choose|j: int| has_report_since(moments, id, j, n);
        lemma_reporter_was_known(moments, id, j);
        lemma_stayed(moments, id, j, n);
        lemma_reported_means_ready(moments, n, id, j);
    }
}

/// Lockstep, both ways: over any history, a turn of the loop gives a tick exactly if there is a
/// participant and every participant has reported since the tick before.
pub proof fn law_a_turn_ticks_when_everybody_has_reported<S: Simulation>(
    moments: Seq<Moment<S>>,
    n: int,
)
    requires
        is_loop_history(moments),
        0 <= n < moments.len(),
        moments[n].is_turn(),
    ensures
        moments[n].gives_tick() <==> {
            &&& exists|id: u64| #[trigger] moments[n].leaves_participant(id)
            &&& forall|id: u64| #[trigger]
                moments[n].leaves_participant(id) ==> exists|j: int|
                    has_report_since(moments, id, j, n)
        },
{
    let moment = moments[n];
    assert(moment.is_valid());
    let event = moment.call->Handle_event;
    let turn = moment.call->Handle_turn;
    let pre = moment.pre.world(moment.pre_loop.ready@);
    let post = moment.post.world(moment.post_loop.ready@);
    let mid = choose|mid: World<S>| #[trigger]
        applied(pre, moment.pre_loop.client_ids@, event, mid) && barrier_turn(
            mid,
            turn.tick(),
            post,
        );
    lemma_history_is_sound(moments, n);
    assert(post.clients.dom() == mid.clients.dom());
    law_step_needs_every_participant(mid.ready, mid.clients);
    assert(moment.gives_tick() <==> barrier_met(mid.ready, mid.clients));
    assert forall|id: u64| #[trigger] moment.leaves_participant(id) <==> participants(
        mid.clients,
    ).contains(id) by {
        lemma_barrier_keeps_clients(mid, turn.tick(), post, id);
    }
    assert forall|id: u64| #[trigger] moment.leaves_participant(id) implies (exists|j: int|
        has_report_since(moments, id, j, n)) == mid.ready.contains(id) by {
        assert(mid.ready.contains(id) <==> pre.ready.contains(id) || moment.is_report_of(id));
        if mid.ready.contains(id) {
            lemma_ready_means_reported(moments, n, id);
        }
        if exists|j: int| has_report_since(moments, id, j, n) {
            let j = choose|j: int| has_report_since(moments, id, j, n);
            lemma_reporter_was_known(moments, id, j);
            lemma_stayed(moments, id, j, n);
            lemma_reported_means_ready(moments, n, id, j);
        }
    }
    if moment.gives_tick() {
        let id = choose|id: u64| #[trigger] participants(mid.clients).contains(id);
        assert(moment.leaves_participant(id));
    } else if exists|id: u64| #[trigger] moment.leaves_participant(id) {
        let id = choose|id: u64| #[trigger] moment.leaves_participant(id);
        assert(participants(mid.clients).contains(id));
        let other = choose|other: u64| #[trigger]
            participants(mid.clients).contains(other) && !mid.ready.contains(other);
        assert(moment.leaves_participant(other));
    }
}

/// Between `before` and `after`, exactly `msgs` were offered through a handle, in this order.
pub open spec fn got_exactly(
    before: Sender<ServerMsg>,
    after: Sender<ServerMsg>,
    msgs: Seq<ServerMsg>,
) -> bool {
    &&& events_into(after) == events_into(before)
    &&& event_sends(after).len() == event_sends(before).len() + msgs.len()
    &&& forall|i: int|
        0 <= i < event_sends(before).len() ==> #[trigger] event_sends(after)[i] == event_sends(
            before,
        )[i]
    &&& forall|i: int|
        0 <= i < msgs.len() ==> (#[trigger] event_sends(after)[event_sends(before).len() + i]).0
            == msgs[i]
}

/// The message that tells a tick, if a turn gave one.
pub open spec fn news(turn: LoopTurn) -> Seq<ServerMsg> {
    match turn {
        LoopTurn::Stepped(tick) => seq![ServerMsg { body: Some(ServerMsgBody::Tick(tick)) }],
        _ => Seq::empty(),
    }
}

/// Two rounds of offers are one.
proof fn lemma_offers_add_up(
    before: ClientInfo,
    first: Seq<ServerMsg>,
    between: ClientInfo,
    second: Seq<ServerMsg>,
    after: ClientInfo,
)
    requires
        got_exactly(before.outbound_tx, between.outbound_tx, first),
        got_exactly(between.outbound_tx, after.outbound_tx, second),
    ensures
        got_exactly(before.outbound_tx, after.outbound_tx, first + second),
{
    let start = event_sends(before.outbound_tx);
    let mid = event_sends(between.outbound_tx);
    let end = event_sends(after.outbound_tx);
    assert forall|i: int| 0 <= i < start.len() implies #[trigger] end[i] == start[i] by {
        assert(end[i] == mid[i]);
    }
    assert forall|i: int| 0 <= i < (first + second).len() implies (#[trigger] end[start.len()
        + i]).0 == (first + second)[i] by {
        if i < first.len() {
            assert(end[start.len() + i] == mid[start.len() + i]);
        } else {
            assert(end[mid.len() + (i - first.len())].0 == second[i - first.len()]);
        }
    }
}

/// What an offer does to a client.
proof fn lemma_offer_is_exact(before: ClientInfo, msgs: Seq<ServerMsg>, after: ClientInfo)
    requires
        before.after_offer(msgs, after),
    ensures
        got_exactly(before.outbound_tx, after.outbound_tx, msgs),
{
    let start = event_sends(before.outbound_tx);
    let end = event_sends(after.outbound_tx);
    assert forall|i: int| 0 <= i < start.len() implies #[trigger] end[i] == start[i] by {
        assert(end.take(start.len() as int)[i] == end[i]);
    }
    assert forall|i: int| 0 <= i < msgs.len() implies (#[trigger] end[start.len() + i]).0
        == msgs[i] by {
        assert(end[start.len() + i].0 == msgs[i]);
    }
}

/// No offer leaves the record as it is.
proof fn lemma_no_offer(client: ClientInfo)
    ensures
        got_exactly(client.outbound_tx, client.outbound_tx, Seq::empty()),
{
}

/// What the look at the barrier at the end of a turn does to a client.
proof fn lemma_barrier_tells_the_tick<S: Simulation>(
    mid: World<S>,
    turn: LoopTurn,
    post: World<S>,
    id: u64,
)
    requires
        barrier_turn(mid, turn.tick(), post),
        mid.clients.dom().contains(id),
    ensures
        post.clients.dom().contains(id),
        got_exactly(mid.clients[id].outbound_tx, post.clients[id].outbound_tx, news(turn)),
        post.clients[id].step_participant == mid.clients[id].step_participant,
        post.clients[id].inbound_tx == mid.clients[id].inbound_tx,
        post.clients[id].inbound_rx == mid.clients[id].inbound_rx,
        post.clients[id].outbound_rx == mid.clients[id].outbound_rx,
{
    match turn {
        LoopTurn::Stepped(tick) => {
            let msgs = seq![ServerMsg::of_tick(tick)];
            assert(turn.tick() == Some(tick));
            assert(mid.clients[id].after_offer(msgs, post.clients[id]));
            lemma_offer_is_exact(mid.clients[id], msgs, post.clients[id]);
            assert(msgs =~= news(turn));
        },
        _ => {
            lemma_no_offer(mid.clients[id]);
        },
    }
}

/// The simulation gets each message as it was sent. In a turn on a message that is neither a report
/// nor a request to stop, the simulation handles that very message, body and all. What it answers
/// is what every client is offered, in order; the tick follows, if the turn gives one. A message
/// that the simulation refuses is not answered.
pub proof fn law_the_simulation_gets_each_message_as_sent<S: Simulation>(
    moment: Moment<S>,
    i: usize,
    msg: ClientMsg,
    turn: LoopTurn,
)
    requires
        moment.is_valid(),
        moment.call == (LoopCall::Handle { event: LoopEvent::Message(i, msg), turn }),
        !(msg.body matches Some(ClientMsgBody::StepReady(_))),
        !(msg.body matches Some(ClientMsgBody::Shutdown(_))),
    ensures
        exists|sim: S, reply: Result<Vec<ServerMsg>, SimError>|
            {
                &&& #[trigger] S::handles(moment.pre.sim, msg, sim, reply)
                &&& match turn {
                    LoopTurn::Stop => false,
                    LoopTurn::Continue => moment.post.sim == sim,
                    LoopTurn::Stepped(tick) => moment.post.sim.shows(tick) && exists|
                        outcome: Result<(), SimError>,
                    | #[trigger] S::steps(sim, moment.post.sim, outcome),
                }
                &&& clients_in(moment.post.clients).dom() == clients_in(moment.pre.clients).dom()
                &&& forall|id: u64| #[trigger]
                    clients_in(moment.pre.clients).dom().contains(id) ==> got_exactly(
                        clients_in(moment.pre.clients)[id].outbound_tx,
                        clients_in(moment.post.clients)[id].outbound_tx,
                        (match reply {
                            Ok(msgs) => msgs@,
                            Err(_) => Seq::empty(),
                        }) + news(turn),
                    )
            },
{
    let pre = moment.pre.world(moment.pre_loop.ready@);
    let post = moment.post.world(moment.post_loop.ready@);
    let event = LoopEvent::Message(i, msg);
    let mid = choose|mid: World<S>| #[trigger]
        applied(pre, moment.pre_loop.client_ids@, event, mid) && barrier_turn(
            mid,
            turn.tick(),
            post,
        );
    let reply = choose|reply: Result<Vec<ServerMsg>, SimError>|
        {
            &&& #[trigger] S::handles(pre.sim, msg, mid.sim, reply)
            &&& match reply {
                Ok(msgs) => all_offered(pre.clients, msgs@, mid.clients),
                Err(_) => mid.clients == pre.clients,
            }
        };
    let replies = match reply {
        Ok(msgs) => msgs@,
        Err(_) => Seq::<ServerMsg>::empty(),
    };
    assert(S::handles(moment.pre.sim, msg, mid.sim, reply));
    assert(mid.clients.dom() == pre.clients.dom());
    assert(post.clients.dom() == mid.clients.dom());
    assert forall|id: u64| #[trigger] pre.clients.dom().contains(id) implies got_exactly(
        pre.clients[id].outbound_tx,
        post.clients[id].outbound_tx,
        replies + news(turn),
    ) by {
        match reply {
            Ok(msgs) => {
                lemma_offer_is_exact(pre.clients[id], msgs@, mid.clients[id]);
            },
            Err(_) => {
                lemma_no_offer(pre.clients[id]);
            },
        }
        lemma_barrier_tells_the_tick(mid, turn, post, id);
        lemma_offers_add_up(
            pre.clients[id],
            replies,
            mid.clients[id],
            news(turn),
            post.clients[id],
        );
    }
}

/// Nothing but a message is for the simulation: in a turn on a report, on a client that has gone
/// or on nothing at all, the simulation handles nothing and changes only by the step, if the turn
/// gives a tick, and every client is offered that tick and nothing else.
pub proof fn law_the_simulation_gets_nothing_else<S: Simulation>(
    moment: Moment<S>,
    event: LoopEvent,
    turn: LoopTurn,
)
    requires
        moment.is_valid(),
        moment.call == (LoopCall::Handle { event, turn }),
        event matches LoopEvent::Message(_, msg) ==> (msg.body matches Some(
            ClientMsgBody::StepReady(_),
        )),
    ensures
        match turn {
            LoopTurn::Stop => false,
            LoopTurn::Continue => moment.post.sim == moment.pre.sim,
            LoopTurn::Stepped(tick) => moment.post.sim.shows(tick) && exists|
                outcome: Result<(), SimError>,
            | #[trigger] S::steps(moment.pre.sim, moment.post.sim, outcome),
        },
        forall|id: u64| #[trigger]
            clients_in(moment.post.clients).dom().contains(id) ==> got_exactly(
                clients_in(moment.pre.clients)[id].outbound_tx,
                clients_in(moment.post.clients)[id].outbound_tx,
                news(turn),
            ),
{
    let pre = moment.pre.world(moment.pre_loop.ready@);
    let post = moment.post.world(moment.post_loop.ready@);
    let mid = choose|mid: World<S>| #[trigger]
        applied(pre, moment.pre_loop.client_ids@, event, mid) && barrier_turn(
            mid,
            turn.tick(),
            post,
        );
    assert(mid.sim == pre.sim);
    assert(post.clients.dom() == mid.clients.dom());
    assert forall|id: u64| #[trigger] post.clients.dom().contains(id) implies got_exactly(
        pre.clients[id].outbound_tx,
        post.clients[id].outbound_tx,
        news(turn),
    ) by {
        assert(mid.clients[id] == pre.clients[id]);
        lemma_barrier_tells_the_tick(mid, turn, post, id);
    }
}

/// A turn removes the client that has gone, and nobody else. It adds no client, and those that stay
/// keep their role and their channels.
pub proof fn law_a_turn_removes_only_the_client_that_has_gone<S: Simulation>(
    moment: Moment<S>,
    event: LoopEvent,
    turn: LoopTurn,
    id: u64,
)
    requires
        moment.is_valid(),
        moment.call == (LoopCall::Handle { event, turn }),
    ensures
        moment.leaves(id) <==> clients_in(moment.pre.clients).dom().contains(id) && !(
        event matches LoopEvent::Disconnected(i) && moment.pre_loop.client_ids@[i as int] == id),
        moment.leaves(id) ==> {
            let before = clients_in(moment.pre.clients)[id];
            let after = clients_in(moment.post.clients)[id];
            &&& after.step_participant == before.step_participant
            &&& after.inbound_tx == before.inbound_tx
            &&& after.inbound_rx == before.inbound_rx
            &&& after.outbound_rx == before.outbound_rx
            &&& events_into(after.outbound_tx) == events_into(before.outbound_tx)
        },
        moment.post_loop.client_ids@ == moment.pre_loop.client_ids@,
        moment.post_loop.receivers@ == moment.pre_loop.receivers@,
        moment.post.next_client_id == moment.pre.next_client_id,
        moment.post.shutdown_flag == moment.pre.shutdown_flag,
{
    let pre = moment.pre.world(moment.pre_loop.ready@);
    let post = moment.post.world(moment.post_loop.ready@);
    if !(turn is Stop) {
        let mid = choose|mid: World<S>| #[trigger]
            applied(pre, moment.pre_loop.client_ids@, event, mid) && barrier_turn(
                mid,
                turn.tick(),
                post,
            );
        assert(post.clients.dom() == mid.clients.dom());
        if mid.clients.dom().contains(id) {
            lemma_barrier_tells_the_tick(mid, turn, post, id);
            if let LoopEvent::Message(_, msg) = event {
                if !msg.is_step_ready() {
                    let reply = choose|reply: Result<Vec<ServerMsg>, SimError>|
                        {
                            &&& #[trigger] S::handles(pre.sim, msg, mid.sim, reply)
                            &&& match reply {
                                Ok(msgs) => all_offered(
                                    pre.clients,
                                    msgs@,
                                    mid.clients,
                                ),
                                Err(_) => mid.clients == pre.clients,
                            }
                        };
                    if let Ok(msgs) = reply {
                        assert(pre.clients[id].after_offer(msgs@, mid.clients[id]));
                    }
                }
            }
        }
    }
}

/// The loop stops for a client that asks for it, whoever that is, and for no other event; then
/// nothing else happens.
pub proof fn law_only_a_request_stops_the_loop<S: Simulation>(
    moment: Moment<S>,
    event: LoopEvent,
    turn: LoopTurn,
)
    requires
        moment.is_valid(),
        moment.call == (LoopCall::Handle { event, turn }),
    ensures
        turn is Stop <==> (event matches LoopEvent::Message(_, msg) && (msg.body matches Some(
            ClientMsgBody::Shutdown(_),
        ))),
        turn is Stop ==> moment.post == moment.pre && moment.post_loop == moment.pre_loop,
{
}

/// A look at the clients leaves every report where it is. Unless the server shuts down, the loop
/// then has the registered clients in increasing order, each once; it waits ten milliseconds for a
/// message, or sleeps for five if there is nobody to listen to.
pub proof fn law_a_look_keeps_the_reports<S: Simulation>(
    server: Server<S>,
    pre: SimLoop,
    step: LoopStep,
    post: SimLoop,
)
    requires
        server.refreshed(pre, step, post),
    ensures
        post.ready@ == pre.ready@,
        step is Stop <==> server.shutdown_flag,
        server.shutdown_flag ==> post.client_ids@ == pre.client_ids@ && post.receivers@
            == pre.receivers@,
        !server.shutdown_flag ==> {
            &&& forall|id: u64|
                clients_in(server.clients).dom().contains(id)
                    <==> #[trigger] post.client_ids@.contains(id)
            &&& forall|i: int, j: int|
                0 <= i < j < post.client_ids@.len() ==> post.client_ids@[i] < post.client_ids@[j]
            &&& step == if post.receivers@.len() == 0 {
                LoopStep::Sleep(5)
            } else {
                LoopStep::Wait(10)
            }
        },
{
    if !server.shutdown_flag {
        let ids = post.client_ids@;
        assert forall|id: u64|
            clients_in(server.clients).dom().contains(id) <==> #[trigger] ids.contains(id) by {
            assert(ids.to_set().contains(id) <==> ids.contains(id));
        }
    }
}

/// Waiting takes a message from the one client that was heard, unchanged, and from nobody else; it
/// leaves every report and every receiver where it is.
pub proof fn law_waiting_takes_one_message(
    pre: SimLoop,
    timeout_ms: u64,
    event: LoopEvent,
    post: SimLoop,
    k: int,
)
    requires
        pre.waited(timeout_ms, event, post),
        0 <= k < pre.receivers@.len(),
    ensures
        post.ready@ == pre.ready@,
        post.client_ids@ == pre.client_ids@,
        post.receivers@.len() == pre.receivers@.len(),
        requests_from(post.receivers@[k]) == requests_from(pre.receivers@[k]),
        ({
            let before = request_receives(pre.receivers@[k]);
            let after = request_receives(post.receivers@[k]);
            match event {
                LoopEvent::Message(i, msg) => i < pre.receivers@.len() && if i == k {
                    after == before.push(Some(msg))
                } else {
                    after == before
                },
                LoopEvent::Disconnected(i) => i < pre.receivers@.len() && if i == k {
                    after == before.push(None)
                } else {
                    after == before
                },
                LoopEvent::Timeout => after == before,
            }
        }),
{
    let before = request_receives(pre.receivers@[k]);
    let after = request_receives(post.receivers@[k]);
    assert(after == before + event.received_at(k));
    assert(before + Seq::<Option<ClientMsg>>::empty() =~= before);
    match event {
        LoopEvent::Message(i, msg) => {
            assert(event.position() == Some(i));
            assert(before + seq![Some(msg)] =~= before.push(Some(msg)));
        },
        LoopEvent::Disconnected(i) => {
            assert(event.position() == Some(i));
            assert(before + seq![None::<ClientMsg>] =~= before.push(None));
        },
        LoopEvent::Timeout => {},
    }
}

/// A registration gives the client its own way to the server and back: what it sends goes where
/// the server listens to it, and what the server sends it comes out at its end. Nothing has passed
/// either way. The server keeps a way in for a remote client only. No other client is touched, and
/// neither is the simulation.
pub proof fn law_a_registration_connects_the_client<S: Simulation>(
    pre: Server<S>,
    local: bool,
    step_participant: bool,
    client_id: u64,
    to_server: Sender<ClientMsg>,
    from_server: Receiver<ServerMsg>,
    post: Server<S>,
)
    requires
        pre.registers(local, step_participant, client_id, to_server, from_server, post),
    ensures
        client_id == pre.next_client_id,
        post.next_client_id == if client_id == u64::MAX {
            0int
        } else {
            client_id + 1
        },
        post.sim == pre.sim,
        post.shutdown_flag == pre.shutdown_flag,
        clients_in(post.clients).dom().contains(client_id),
        ({
            let info = clients_in(post.clients)[client_id];
            &&& info.step_participant == step_participant
            &&& requests_into(to_server) == requests_from(info.inbound_rx)
            &&& events_into(info.outbound_tx) == events_from(from_server)
            &&& events_from(info.outbound_rx) == events_from(from_server)
            &&& match info.inbound_tx {
                Some(tx) => !local && requests_into(tx) == requests_from(info.inbound_rx),
                None => local,
            }
            &&& requests_into(to_server).capacity is None
            &&& events_from(from_server).capacity is None
            &&& request_sends(to_server).len() == 0
            &&& request_receives(info.inbound_rx).len() == 0
            &&& event_sends(info.outbound_tx).len() == 0
            &&& event_receives(from_server).len() == 0
        }),
        forall|id: u64| #[trigger]
            clients_in(post.clients).dom().contains(id) && id != client_id ==> {
                &&& clients_in(pre.clients).dom().contains(id)
                &&& clients_in(post.clients)[id] == clients_in(pre.clients)[id]
                &&& requests_from(clients_in(pre.clients)[id].inbound_rx) != requests_into(
                    to_server,
                )
                &&& events_into(clients_in(pre.clients)[id].outbound_tx) != events_from(
                    from_server,
                )
            },
        forall|id: u64| #[trigger]
            clients_in(pre.clients).dom().contains(id) ==> clients_in(post.clients).dom().contains(
                id,
            ),
{
    let before = clients_in(pre.clients);
    let after = clients_in(post.clients);
    assert forall|id: u64| #[trigger] after.dom().contains(id) && id != client_id implies
        before.dom().contains(id) && after[id] == before[id] by {
        assert(after.remove(client_id)[id] == after[id]);
        assert(before.remove(client_id)[id] == before[id]);
    }
}

/// A removal takes away the client it is about, and touches nothing else.
pub proof fn law_a_removal_touches_one_client<S: Simulation>(
    pre: Server<S>,
    client_id: u64,
    post: Server<S>,
    id: u64,
)
    requires
        pre.forgets(client_id, post),
    ensures
        clients_in(post.clients).dom().contains(id) <==> clients_in(pre.clients).dom().contains(id)
            && id != client_id,
        clients_in(post.clients).dom().contains(id) ==> clients_in(post.clients)[id]
            == clients_in(pre.clients)[id],
        post.next_client_id == pre.next_client_id,
        post.sim == pre.sim,
        post.shutdown_flag == pre.shutdown_flag,
{
}

/// Being told to shut down sets the flag and leaves the clients and the simulation as they are; the
/// end of the loop drops every client and leaves the simulation as it is.
pub proof fn law_shutting_down_keeps_the_simulation<S: Simulation>(
    server: Server<S>,
    told: Server<S>,
    end: Server<S>,
    id: u64,
)
    requires
        server.told_to_stop(told),
        told.finished(end),
    ensures
        told.shutdown_flag,
        clients_in(told.clients) == clients_in(server.clients),
        told.sim == server.sim,
        end.sim == server.sim,
        told.next_client_id == server.next_client_id,
        end.next_client_id == server.next_client_id,
        !clients_in(end.clients).dom().contains(id),
{
}

/// A server that has just been made has given no id and knows no client, has the simulation that it
/// was made with, and is not told to shut down; its loop has heard of nobody.
pub proof fn law_a_server_starts_empty<S: Simulation>(
    server: Server<S>,
    sim: S,
    sim_loop: SimLoop,
    id: u64,
)
    requires
        server.is_new(sim),
        sim_loop.is_new(),
    ensures
        server.next_client_id == 1,
        !clients_in(server.clients).dom().contains(id),
        server.sim == sim,
        !server.shutdown_flag,
        !sim_loop.ready@.contains(id),
        sim_loop.client_ids@.len() == 0,
        sim_loop.receivers@.len() == 0,
{
}

} // verus!
