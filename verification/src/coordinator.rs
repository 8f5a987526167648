//! A server that counts ticks itself: it registers clients, counts them at a step barrier and
//! broadcasts what the simulation answers.
//!
//! A `Coordinator` is plain state that handles one command at a time. A host shares it between
//! threads behind a lock.

use crate::channel::{
    bounded_events, event_receives, event_sends, events_from, events_into, out_apart, send_event,
};
use crate::history::got_exactly;
use crate::interface::{
    ClientMsg, ClientMsgBody, ServerMsg, ServerMsgBody, SimError, Simulation, Tick,
};
use crate::registry::extends_by;
use crate::server::ServerMode;
use crate::simulator::MySim;
use crossbeam_channel::{Receiver, Sender};
use std::collections::{HashMap, HashSet};
use vstd::prelude::*;

verus! {

broadcast use vstd::std_specs::hash::group_hash_axioms;

/// How many events a client may leave unread before the coordinator waits for it.
pub const CLIENT_BACKLOG: usize = 256;

/// The state of the coordinator.
pub struct Coordinator<S: Simulation> {
    /// The id of the client that registered last, or zero.
    pub next_id: u64,
    /// The clients that contribute to the step barrier.
    pub contributing: HashSet<u64>,
    /// The contributing clients that are ready for the next step.
    pub ready: HashSet<u64>,
    /// The way to each client.
    pub client_out: HashMap<u64, Sender<ServerMsg>>,
    /// The number of steps so far.
    pub tick_seq: u64,
    pub sim: S,
    /// False once the coordinator has been shut down.
    pub running: bool,
}

/// A command to the coordinator.
pub enum Cmd {
    Register { name: String, contributing: bool },
    StepReady { client_id: u64 },
    Remove { client_id: u64 },
    Message { msg: ClientMsg },
    Shutdown,
}

/// What a command came to.
pub enum Reply {
    /// The new client has this id and receives its events here.
    Registered(u64, Receiver<ServerMsg>),
    /// The barrier was met: the clients were told this tick.
    Ticked(Tick),
    /// Done.
    Done,
}

/// The ways to the clients after `msgs` have been offered to each, in order.
pub open spec fn out_offered(
    before: Map<u64, Sender<ServerMsg>>,
    msgs: Seq<ServerMsg>,
    after: Map<u64, Sender<ServerMsg>>,
) -> bool {
    &&& after.dom() == before.dom()
    &&& forall|id: u64| #[trigger]
        before.dom().contains(id) ==> events_into(after[id]) == events_into(before[id])
            && extends_by(event_sends(before[id]), event_sends(after[id]), msgs)
}

/// No two clients share a channel.
pub open spec fn out_separate(out: Map<u64, Sender<ServerMsg>>) -> bool {
    forall|a: u64, b: u64|
        #![trigger out.dom().contains(a), out.dom().contains(b)]
        out.dom().contains(a) && out.dom().contains(b) && a != b ==> events_into(out[a])
            != events_into(out[b])
}

/// The text that tells the clients of a simulation error.
pub open spec fn error_text(error: SimError) -> Seq<char> {
    "sim error: "@ + error.message@
}

/// The clients that there is a way to, in no particular order.
fn keys_of(map: &HashMap<u64, Sender<ServerMsg>>) -> (ids: Vec<u64>)
    ensures
        ids@.no_duplicates(),
        ids@.to_set() == map@.dom(),
{
    let mut ids: Vec<u64> = Vec::new();
    for key in it: map.keys()
        invariant
            it.index() <= it.seq().len(),
            ids@.len() == it.index(),
            forall|i: int| 0 <= i < ids@.len() ==> ids@[i] == *it.seq()[i],
            it.seq().no_duplicates(),
            it.seq().unref().to_set() == map@.dom(),
            ids@ == it.seq().unref().take(it.index() as int),
    {
        ids.push(*key);
    }
    ids
}

/// What holds of the ways to the clients after two rounds of offers.
proof fn lemma_offers_compose(
    before: Map<u64, Sender<ServerMsg>>,
    first: Seq<ServerMsg>,
    between: Map<u64, Sender<ServerMsg>>,
    second: Seq<ServerMsg>,
    after: Map<u64, Sender<ServerMsg>>,
)
    requires
        out_offered(before, first, between),
        out_offered(between, second, after),
    ensures
        out_offered(before, first + second, after),
{
    assert forall|id: u64| #[trigger] before.dom().contains(id) implies extends_by(
        event_sends(before[id]),
        event_sends(after[id]),
        first + second,
    ) by {
        assert(between.dom().contains(id));
        let start = event_sends(before[id]);
        let mid = event_sends(between[id]);
        let end = event_sends(after[id]);
        assert(end.take(start.len() as int) =~= end.take(mid.len() as int).take(
            start.len() as int,
        ));
        assert forall|i: int| 0 <= i < (first + second).len() implies end[start.len() + i].0
            == #[trigger] (first + second)[i] by {
            if i < first.len() {
                assert(end[start.len() + i] == end.take(mid.len() as int)[start.len() + i]);
                assert(first[i] == (first + second)[i]);
            } else {
                assert(second[i - first.len()] == (first + second)[i]);
            }
        }
    }
}

impl<S: Simulation> Coordinator<S> {
    /// The state that every command keeps: only contributing clients are ready, only registered
    /// clients contribute, no id lies above the last one, and no two clients share a channel.
    pub open spec fn well_formed(self) -> bool {
        &&& self.contributing@.finite()
        &&& self.ready@.subset_of(self.contributing@)
        &&& self.contributing@.subset_of(self.client_out@.dom())
        &&& forall|id: u64| #[trigger]
            self.client_out@.dom().contains(id) ==> 1 <= id <= self.next_id
        &&& out_separate(self.client_out@)
    }

    /// Everything but the ways to the clients and the simulation is as in `other`.
    pub open spec fn same_books(self, other: Coordinator<S>) -> bool {
        &&& self.next_id == other.next_id
        &&& self.contributing@ == other.contributing@
        &&& self.ready@ == other.ready@
        &&& self.tick_seq == other.tick_seq
        &&& self.running == other.running
    }

    /// Everything is as in `other`.
    pub open spec fn same_as(self, other: Coordinator<S>) -> bool {
        self.same_books(other) && self.client_out@ == other.client_out@ && self.sim == other.sim
    }

    /// True of a coordinator that has seen no client yet.
    pub open spec fn is_new(self, sim: S) -> bool {
        &&& self.next_id == 0
        &&& self.contributing@ == Set::<u64>::empty()
        &&& self.ready@ == Set::<u64>::empty()
        &&& self.client_out@.dom() == Set::<u64>::empty()
        &&& self.tick_seq == 0
        &&& self.sim == sim
        &&& self.running
        &&& self.well_formed()
    }

    /// A coordinator for `sim`.
    pub fn spawn(sim: S) -> (coord: Coordinator<S>)
        ensures
            coord.is_new(sim),
    {
        Coordinator {
            next_id: 0,
            contributing: HashSet::new(),
            ready: HashSet::new(),
            client_out: HashMap::new(),
            tick_seq: 0,
            sim,
            running: true,
        }
    }

    /// `post` comes from this state by registering a client, which got `id` and `inbox`.
    pub open spec fn registers(
        self,
        contributing: bool,
        id: u64,
        inbox: Receiver<ServerMsg>,
        post: Coordinator<S>,
    ) -> bool {
        &&& id == self.next_id + 1
        &&& post.next_id == id
        &&& post.client_out@.dom() == self.client_out@.dom().insert(id)
        &&& post.client_out@.remove(id) == self.client_out@.remove(id)
        &&& events_into(post.client_out@[id]) == events_from(inbox)
        &&& events_from(inbox).capacity == Some(CLIENT_BACKLOG as nat)
        &&& out_apart(self.client_out@, inbox)
        &&& event_sends(post.client_out@[id]).len() == 0
        &&& event_receives(inbox).len() == 0
        &&& post.contributing@ == if contributing {
            self.contributing@.insert(id)
        } else {
            self.contributing@
        }
        &&& post.ready@ == self.ready@
        &&& post.tick_seq == self.tick_seq
        &&& post.sim == self.sim
        &&& post.running == self.running
    }

    /// `post` comes from this state by the report of client `id` that it is ready. The report of
    /// a client that does not contribute changes nothing. When as many clients are ready as
    /// contribute, the tick count goes up, every client is offered the tick, and nobody is ready
    /// any more.
    pub open spec fn reports(self, id: u64, tick: Option<Tick>, post: Coordinator<S>) -> bool {
        let ready = self.ready@.insert(id);
        if !self.running || !self.contributing@.contains(id) {
            tick is None && post.same_as(self)
        } else if ready.len() == self.contributing@.len() {
            &&& tick == Some(Tick { seq: (self.tick_seq + 1) as u64, time_bits: 0 })
            &&& post.tick_seq == self.tick_seq + 1
            &&& post.ready@ == Set::<u64>::empty()
            &&& out_offered(
                self.client_out@,
                seq![ServerMsg::of_tick(tick->0)],
                post.client_out@,
            )
            &&& post.next_id == self.next_id
            &&& post.contributing@ == self.contributing@
            &&& post.sim == self.sim
            &&& post.running == self.running
        } else {
            &&& tick is None
            &&& post.ready@ == ready
            &&& post.next_id == self.next_id
            &&& post.contributing@ == self.contributing@
            &&& post.client_out@ == self.client_out@
            &&& post.tick_seq == self.tick_seq
            &&& post.sim == self.sim
            &&& post.running == self.running
        }
    }

    /// `post` comes from this state by passing `msg` to the simulation and offering what it
    /// answers, or the text of its error, to every client.
    pub open spec fn passes_on(self, msg: ClientMsg, post: Coordinator<S>) -> bool {
        if !self.running {
            post.same_as(self)
        } else {
            &&& post.same_books(self)
            &&& exists|reply: Result<Vec<ServerMsg>, SimError>|
                {
                    &&& #[trigger] S::handles(self.sim, msg, post.sim, reply)
                    &&& match reply {
                        Ok(msgs) => out_offered(self.client_out@, msgs@, post.client_out@),
                        Err(error) => exists|told: ServerMsg|
                            told.is_error(error_text(error)) && #[trigger] out_offered(
                                self.client_out@,
                                seq![told],
                                post.client_out@,
                            ),
                    }
                }
        }
    }

    /// `post` comes from this state by forgetting client `id`. The barrier is not looked at.
    pub open spec fn forgets(self, id: u64, post: Coordinator<S>) -> bool {
        if !self.running {
            post.same_as(self)
        } else {
            &&& post.contributing@ == self.contributing@.remove(id)
            &&& post.ready@ == self.ready@.remove(id)
            &&& post.client_out@ == self.client_out@.remove(id)
            &&& post.next_id == self.next_id
            &&& post.tick_seq == self.tick_seq
            &&& post.sim == self.sim
            &&& post.running == self.running
        }
    }

    /// Registers a client. The name is not kept.
    pub fn register(&mut self, _name: &str, contributing: bool) -> (client: (
        u64,
        Receiver<ServerMsg>,
    ))
        requires
            old(self).running,
            old(self).next_id < u64::MAX,
        ensures
            old(self).registers(contributing, client.0, client.1, *final(self)),
            old(self).well_formed() ==> final(self).well_formed()
                && !old(self).client_out@.dom().contains(client.0),
    {
        self.next_id = self.next_id + 1;
        let id: u64 = self.next_id;
        let (out_tx, out_rx) = bounded_events(CLIENT_BACKLOG, Some(&self.client_out));
        self.client_out.insert(id, out_tx);
        if contributing {
            self.contributing.insert(id);
        }
        assert(self.client_out@.remove(id) =~= old(self).client_out@.remove(id));
        (id, out_rx)
    }

    /// Offers `msg` to every client.
    fn broadcast(&mut self, msg: &ServerMsg)
        ensures
            out_offered(old(self).client_out@, seq![*msg], final(self).client_out@),
            final(self).same_books(*old(self)),
            final(self).sim == old(self).sim,
    {
        let ids: Vec<u64> = keys_of(&self.client_out);
        let ghost before = self.client_out@;
        let mut i: usize = 0;
        while i < ids.len()
            invariant
                i <= ids.len(),
                before == old(self).client_out@,
                ids@.no_duplicates(),
                ids@.to_set() == before.dom(),
                self.client_out@.dom() == before.dom(),
                forall|j: int|
                    0 <= j < i ==> {
                        let id = #[trigger] ids@[j];
                        &&& events_into(self.client_out@[id]) == events_into(before[id])
                        &&& extends_by(
                            event_sends(before[id]),
                            event_sends(self.client_out@[id]),
                            seq![*msg],
                        )
                    },
                forall|j: int|
                    i <= j < ids@.len() ==> self.client_out@[#[trigger] ids@[j]] == before[ids@[j]],
                self.same_books(*old(self)),
                self.sim == old(self).sim,
            decreases ids.len() - i,
        {
            let id: u64 = ids[i];
            assert(ids@.to_set().contains(id));
            if let Some(mut tx) = self.client_out.remove(&id) {
                let _ = send_event(&mut tx, msg.clone());
                assert(event_sends(tx).take(event_sends(before[id]).len() as int) =~= event_sends(
                    before[id],
                ));
                self.client_out.insert(id, tx);
            }
            assert(self.client_out@.dom() =~= before.dom());
            i = i + 1;
        }
        assert forall|id: u64| #[trigger] before.dom().contains(id) implies events_into(
            self.client_out@[id],
        ) == events_into(before[id]) && extends_by(
            event_sends(before[id]),
            event_sends(self.client_out@[id]),
            seq![*msg],
        ) by {
            assert(ids@.to_set().contains(id));
            let j = choose|j: int| 0 <= j < ids@.len() && ids@[j] == id;
            assert(ids@[j] == id);
        }
    }

    /// Broadcasts `msgs`, one after the other.
    fn broadcast_all(&mut self, msgs: &Vec<ServerMsg>)
        ensures
            out_offered(old(self).client_out@, msgs@, final(self).client_out@),
            final(self).same_books(*old(self)),
            final(self).sim == old(self).sim,
    {
        assert(out_offered(self.client_out@, msgs@.take(0), self.client_out@)) by {
            assert forall|id: u64| #[trigger]
                self.client_out@.dom().contains(id) implies extends_by(
                event_sends(self.client_out@[id]),
                event_sends(self.client_out@[id]),
                msgs@.take(0),
            ) by {
                let sends = event_sends(self.client_out@[id]);
                assert(sends.take(sends.len() as int) =~= sends);
            }
        }
        let mut i: usize = 0;
        while i < msgs.len()
            invariant
                i <= msgs.len(),
                out_offered(old(self).client_out@, msgs@.take(i as int), self.client_out@),
                self.same_books(*old(self)),
                self.sim == old(self).sim,
            decreases msgs.len() - i,
        {
            let ghost between = self.client_out@;
            self.broadcast(&msgs[i]);
            proof {
                lemma_offers_compose(
                    old(self).client_out@,
                    msgs@.take(i as int),
                    between,
                    seq![msgs@[i as int]],
                    self.client_out@,
                );
                assert(msgs@.take(i as int) + seq![msgs@[i as int]] =~= msgs@.take(i + 1));
            }
            i = i + 1;
        }
        assert(msgs@.take(msgs@.len() as int) =~= msgs@);
    }

    /// Takes the report of a client that it is ready, and ticks if the barrier is met.
    pub fn step_ready(&mut self, client_id: u64) -> (tick: Option<Tick>)
        requires
            old(self).tick_seq < u64::MAX,
        ensures
            old(self).reports(client_id, tick, *final(self)),
            old(self).well_formed() ==> final(self).well_formed(),
    {
        if !self.running || !self.contributing.contains(&client_id) {
            return None;
        }
        self.ready.insert(client_id);
        if self.ready.len() == self.contributing.len() {
            self.tick_seq = self.tick_seq + 1;
            let tick = Tick { seq: self.tick_seq, time_bits: 0 };
            self.broadcast(&ServerMsg::tick(tick));
            self.ready.clear();
            Some(tick)
        } else {
            None
        }
    }

    /// Passes a message to the simulation, and tells every client what it answers.
    pub fn send_message(&mut self, msg: ClientMsg)
        ensures
            old(self).passes_on(msg, *final(self)),
            old(self).well_formed() ==> final(self).well_formed(),
    {
        if !self.running {
            return;
        }
        let reply: Result<Vec<ServerMsg>, SimError> = self.sim.handle_message(msg);
        let ghost said = reply;
        match reply {
            Ok(msgs) => {
                self.broadcast_all(&msgs);
            },
            Err(error) => {
                let mut text: String = "sim error: ".to_string();
                text.append(error.message.as_str());
                let told: ServerMsg = ServerMsg::error(text);
                self.broadcast(&told);
                assert(out_offered(old(self).client_out@, seq![told], self.client_out@));
            },
        }
        assert(S::handles(old(self).sim, msg, self.sim, said));
    }

    /// Forgets a client.
    pub fn remove(&mut self, client_id: u64)
        ensures
            old(self).forgets(client_id, *final(self)),
            old(self).well_formed() ==> final(self).well_formed(),
    {
        if !self.running {
            return;
        }
        self.contributing.remove(&client_id);
        self.ready.remove(&client_id);
        self.client_out.remove(&client_id);
    }

    /// Stops the coordinator: the clients are dropped, and later commands do nothing.
    pub fn shutdown(&mut self)
        ensures
            old(self).stops(*final(self)),
            old(self).well_formed() ==> final(self).well_formed(),
    {
        self.running = false;
        self.contributing.clear();
        self.ready.clear();
        self.client_out.clear();
    }

    /// `post` comes from this state by stopping.
    pub open spec fn stops(self, post: Coordinator<S>) -> bool {
        &&& !post.running
        &&& post.contributing@ == Set::<u64>::empty()
        &&& post.ready@ == Set::<u64>::empty()
        &&& post.client_out@.dom() == Set::<u64>::empty()
        &&& post.next_id == self.next_id
        &&& post.tick_seq == self.tick_seq
        &&& post.sim == self.sim
    }

    /// `post` and `reply` come from this state by `cmd`.
    pub open spec fn handled(self, cmd: Cmd, reply: Reply, post: Coordinator<S>) -> bool {
        match cmd {
            Cmd::Register { contributing, .. } => reply matches Reply::Registered(id, inbox)
                && self.registers(contributing, id, inbox, post),
            Cmd::StepReady { client_id } => match reply {
                Reply::Ticked(tick) => self.reports(client_id, Some(tick), post),
                Reply::Done => self.reports(client_id, None, post),
                Reply::Registered(_, _) => false,
            },
            Cmd::Remove { client_id } => reply is Done && self.forgets(client_id, post),
            Cmd::Message { msg } => reply is Done && self.passes_on(msg, post),
            Cmd::Shutdown => reply is Done && self.stops(post),
        }
    }

    /// The coordinator can take `cmd`: it is running if a client registers, and the counter that
    /// the command needs has room.
    pub open spec fn can_take(self, cmd: Cmd) -> bool {
        match cmd {
            Cmd::Register { .. } => self.running && self.next_id < u64::MAX,
            Cmd::StepReady { .. } => self.tick_seq < u64::MAX,
            _ => true,
        }
    }

    /// Handles one command.
    pub fn handle(&mut self, cmd: Cmd) -> (reply: Reply)
        requires
            old(self).can_take(cmd),
        ensures
            old(self).handled(cmd, reply, *final(self)),
            old(self).well_formed() ==> final(self).well_formed(),
    {
        match cmd {
            Cmd::Register { name, contributing } => {
                let (id, inbox) = self.register(name.as_str(), contributing);
                Reply::Registered(id, inbox)
            },
            Cmd::StepReady { client_id } => match self.step_ready(client_id) {
                Some(tick) => Reply::Ticked(tick),
                None => Reply::Done,
            },
            Cmd::Remove { client_id } => {
                self.remove(client_id);
                Reply::Done
            },
            Cmd::Message { msg } => {
                self.send_message(msg);
                Reply::Done
            },
            Cmd::Shutdown => {
                self.shutdown();
                Reply::Done
            },
        }
    }
}

/// The barrier of a running coordinator is met by a report exactly when every contributing client
/// has now reported since the last tick.
pub proof fn law_tick_needs_every_contributor<S: Simulation>(
    pre: Coordinator<S>,
    id: u64,
    tick: Option<Tick>,
    post: Coordinator<S>,
)
    requires
        pre.well_formed(),
        pre.reports(id, tick, post),
    ensures
        tick is Some <==> pre.running && pre.contributing@.contains(id) && pre.contributing@
            == pre.ready@.insert(id),
{
    let ready = pre.ready@.insert(id);
    if pre.running && pre.contributing@.contains(id) {
        if ready.len() == pre.contributing@.len() {
            vstd::set_lib::lemma_subset_equality(ready, pre.contributing@);
        }
    }
}

/// Each tick is told to every registered client, once, whether it contributes or not.
pub proof fn law_tick_reaches_every_client<S: Simulation>(
    pre: Coordinator<S>,
    reporter: u64,
    tick: Tick,
    post: Coordinator<S>,
    id: u64,
)
    requires
        pre.reports(reporter, Some(tick), post),
        pre.client_out@.dom().contains(id),
    ensures
        post.client_out@.dom().contains(id),
        events_into(post.client_out@[id]) == events_into(pre.client_out@[id]),
        event_sends(post.client_out@[id]) == event_sends(pre.client_out@[id]).push(
            event_sends(post.client_out@[id]).last(),
        ),
        event_sends(post.client_out@[id]).last().0 == ServerMsg::of_tick(tick),
{
    let msgs = seq![ServerMsg::of_tick(tick)];
    let before = event_sends(pre.client_out@[id]);
    let after = event_sends(post.client_out@[id]);
    assert(extends_by(before, after, msgs));
    assert(after[before.len() + 0int].0 == msgs[0]);
    assert(after =~= after.take(before.len() as int).push(after.last()));
}

/// Every command keeps the books in order: only contributing clients are ready, only registered
/// clients contribute, no id lies above the last one, and no two clients share a channel.
pub proof fn law_commands_keep_the_books<S: Simulation>(
    pre: Coordinator<S>,
    cmd: Cmd,
    reply: Reply,
    post: Coordinator<S>,
)
    requires
        pre.well_formed(),
        pre.can_take(cmd),
        pre.handled(cmd, reply, post),
    ensures
        post.well_formed(),
{
    if let Reply::Registered(id, _) = reply {
        assert forall|other: u64| #[trigger]
            post.client_out@.dom().contains(other) && other != id implies
            pre.client_out@.dom().contains(other) && post.client_out@[other]
            == pre.client_out@[other] by {
            assert(post.client_out@.remove(id)[other] == post.client_out@[other]);
            assert(pre.client_out@.remove(id)[other] == pre.client_out@[other]);
        }
    }
}

/// One command, and what it came to.
pub struct Step<S: Simulation> {
    pub pre: Coordinator<S>,
    pub cmd: Cmd,
    pub reply: Reply,
    pub post: Coordinator<S>,
}

/// `steps` follow one another, from a coordinator that has just been made.
pub open spec fn is_history<S: Simulation>(steps: Seq<Step<S>>) -> bool {
    &&& steps.len() > 0 ==> steps[0].pre.is_new(steps[0].pre.sim)
    &&& forall|i: int|
        0 <= i < steps.len() ==> {
            let step = #[trigger] steps[i];
            &&& step.pre.can_take(step.cmd)
            &&& step.pre.handled(step.cmd, step.reply, step.post)
        }
    &&& forall|i: int, j: int|
        0 <= i < steps.len() && j == i + 1 && j < steps.len() ==> (#[trigger] steps[j]).pre == (
        #[trigger] steps[i]).post
}

/// Client `id` reported in step `j`, and no step from then up to step `n` gave a tick.
pub open spec fn reported_since<S: Simulation>(
    steps: Seq<Step<S>>,
    id: u64,
    j: int,
    n: int,
) -> bool {
    &&& 0 <= j <= n
    &&& steps[j].cmd == (Cmd::StepReady { client_id: id })
    &&& forall|k: int| j <= k < n ==> !((#[trigger] steps[k]).reply is Ticked)
}

/// The books are in order all along a history.
proof fn lemma_history_keeps_the_books<S: Simulation>(steps: Seq<Step<S>>, n: int)
    requires
        is_history(steps),
        0 <= n < steps.len(),
    ensures
        steps[n].pre.well_formed(),
    decreases n,
{
    if n > 0 {
        lemma_history_keeps_the_books(steps, n - 1);
        let before = steps[n - 1];
        law_commands_keep_the_books(before.pre, before.cmd, before.reply, before.post);
        assert(steps[n].pre == before.post);
    }
}

/// A client that is ready after a command was ready before or has just reported, and the command
/// gave no tick.
proof fn lemma_readiness_is_reported<S: Simulation>(step: Step<S>, id: u64)
    requires
        step.pre.handled(step.cmd, step.reply, step.post),
        step.post.ready@.contains(id),
    ensures
        !(step.reply is Ticked),
        step.pre.ready@.contains(id) || step.cmd == (Cmd::StepReady { client_id: id }),
{
}

/// A client that is ready has reported, and there has been no tick since.
proof fn lemma_ready_have_reported<S: Simulation>(steps: Seq<Step<S>>, n: int, id: u64)
    requires
        is_history(steps),
        0 <= n < steps.len(),
        steps[n].pre.ready@.contains(id),
    ensures
        exists|j: int| reported_since(steps, id, j, n),
    decreases n,
{
    if n > 0 {
        let m = n - 1;
        assert(steps[n].pre == steps[m].post);
        assert(steps[m].pre.handled(steps[m].cmd, steps[m].reply, steps[m].post));
        lemma_readiness_is_reported(steps[m], id);
        if steps[m].cmd == (Cmd::StepReady { client_id: id }) {
            assert(reported_since(steps, id, m, n));
        } else {
            lemma_ready_have_reported(steps, m, id);
            let j = choose|j: int| reported_since(steps, id, j, m);
            assert(reported_since(steps, id, j, n));
        }
    }
}

/// Lockstep over a whole history: when a step gives a tick, every contributing client has
/// reported since the tick before it.
pub proof fn law_contributors_move_in_lockstep<S: Simulation>(
    steps: Seq<Step<S>>,
    n: int,
    id: u64,
)
    requires
        is_history(steps),
        0 <= n < steps.len(),
        steps[n].reply is Ticked,
        steps[n].pre.contributing@.contains(id),
    ensures
        exists|j: int| reported_since(steps, id, j, n),
{
    lemma_history_keeps_the_books(steps, n);
    let step = steps[n];
    let reporter = step.cmd->StepReady_client_id;
    law_tick_needs_every_contributor(
        step.pre,
        reporter,
        Some(step.reply->Ticked_0),
        step.post,
    );
    if id == reporter {
        assert(reported_since(steps, id, n, n));
    } else {
        assert(step.pre.ready@.insert(reporter).contains(id));
        lemma_ready_have_reported(steps, n, id);
    }
}

/// Ticks are numbered without gaps: a report either gives the next number or none, and no other
/// command changes the number.
pub proof fn law_ticks_are_consecutive<S: Simulation>(
    pre: Coordinator<S>,
    cmd: Cmd,
    reply: Reply,
    post: Coordinator<S>,
)
    requires
        pre.can_take(cmd),
        pre.handled(cmd, reply, post),
    ensures
        match reply {
            Reply::Ticked(tick) => tick.seq == pre.tick_seq + 1 && post.tick_seq == tick.seq,
            _ => post.tick_seq == pre.tick_seq,
        },
{
}

/// Ids are given once: the id of a new client lies above every id given before, also of clients
/// that have left.
pub proof fn law_ids_increase<S: Simulation>(
    pre: Coordinator<S>,
    cmd: Cmd,
    reply: Reply,
    post: Coordinator<S>,
)
    requires
        pre.can_take(cmd),
        pre.handled(cmd, reply, post),
    ensures
        match reply {
            Reply::Registered(id, _) => id == pre.next_id + 1 && post.next_id == id,
            _ => post.next_id == pre.next_id,
        },
{
}

/// A coordinator that was shut down stays as it is, whatever it is told.
pub proof fn law_shutdown_is_final<S: Simulation>(
    pre: Coordinator<S>,
    cmd: Cmd,
    reply: Reply,
    post: Coordinator<S>,
)
    requires
        !pre.running,
        pre.can_take(cmd),
        !(cmd is Shutdown),
        pre.handled(cmd, reply, post),
    ensures
        post.same_as(pre),
        reply is Done,
{
}

/// The command that a message of a client amounts to.
pub open spec fn command_of(msg: ClientMsg) -> Cmd {
    match msg.body {
        Some(ClientMsgBody::Register(request)) => Cmd::Register {
            name: request.client_name,
            contributing: request.step_participant,
        },
        Some(ClientMsgBody::StepReady(_)) => Cmd::StepReady { client_id: msg.client_id },
        _ => Cmd::Message { msg },
    }
}

/// The command that a message of a client amounts to: registration and readiness are for the
/// coordinator, everything else is for the simulation.
pub fn command(msg: ClientMsg) -> (cmd: Cmd)
    ensures
        cmd == command_of(msg),
{
    let client_id: u64 = msg.client_id;
    match msg.body {
        Some(ClientMsgBody::Register(request)) => Cmd::Register {
            name: request.client_name,
            contributing: request.step_participant,
        },
        Some(ClientMsgBody::StepReady(_)) => Cmd::StepReady { client_id },
        body => Cmd::Message { msg: ClientMsg { client_id, body } },
    }
}

impl<S: Simulation> Coordinator<S> {
    /// Takes a message of a client.
    pub fn take(&mut self, msg: ClientMsg) -> (reply: Reply)
        requires
            old(self).can_take(command_of(msg)),
        ensures
            old(self).handled(command_of(msg), reply, *final(self)),
            old(self).well_formed() ==> final(self).well_formed(),
    {
        self.handle(command(msg))
    }
}

/// One client stream of the gRPC service.
pub struct SimSvc {
    /// The client that registered last over this stream.
    pub client_id: Option<u64>,
}

impl SimSvc {
    /// A stream that has just been opened.
    pub fn open() -> (stream: SimSvc)
        ensures
            stream.client_id is None,
    {
        SimSvc { client_id: None }
    }

    /// Takes a message from the stream. After a registration the result holds the answer, which
    /// goes into the stream at once, and where to get the events that follow it there.
    pub fn on_message<S: Simulation>(
        &mut self,
        coord: &mut Coordinator<S>,
        msg: ClientMsg,
    ) -> (answer: Option<(ServerMsg, Receiver<ServerMsg>)>)
        requires
            old(coord).can_take(command_of(msg)),
        ensures
            answer is Some == msg.is_registration(),
            match answer {
                Some((told, inbox)) => exists|id: u64|
                    {
                        &&& told == #[trigger] ServerMsg::of_registration(id)
                        &&& final(self).client_id == Some(id)
                        &&& old(coord).handled(
                            command_of(msg),
                            Reply::Registered(id, inbox),
                            *final(coord),
                        )
                    },
                None => {
                    &&& final(self).client_id == old(self).client_id
                    &&& exists|reply: Reply| #[trigger]
                        old(coord).handled(command_of(msg), reply, *final(coord))
                },
            },
            old(coord).well_formed() ==> final(coord).well_formed(),
    {
        let ghost cmd = command_of(msg);
        let reply: Reply = coord.take(msg);
        assert(old(coord).handled(cmd, reply, *coord));
        match reply {
            Reply::Registered(id, inbox) => {
                self.client_id = Some(id);
                let answer: ServerMsg = ServerMsg::registered(id);
                assert(answer == ServerMsg::of_registration(id));
                Some((answer, inbox))
            },
            _ => None,
        }
    }

    /// The end of the stream: the client leaves the coordinator.
    pub fn close<S: Simulation>(self, coord: &mut Coordinator<S>)
        ensures
            match self.client_id {
                Some(id) => old(coord).forgets(id, *final(coord)),
                None => *final(coord) == *old(coord),
            },
            old(coord).well_formed() ==> final(coord).well_formed(),
    {
        if let Some(id) = self.client_id {
            coord.remove(id);
        }
    }

    /// The service keeps no tick of its own.
    pub fn get_latest_tick() -> (tick: Tick)
        ensures
            tick == (Tick { seq: 0, time_bits: 0 }),
    {
        Tick { seq: 0, time_bits: 0 }
    }

    /// The service gives no state: the text says so.
    pub fn get_latest_state() -> (refusal: String)
        ensures
            refusal@ == "no state API"@,
    {
        "no state API".to_string()
    }
}

/// A server around a coordinator.
pub struct SimServer<S: Simulation> {
    pub coord: Coordinator<S>,
}

impl<S: Simulation> SimServer<S> {
    pub fn new(sim: S) -> (server: SimServer<S>)
        ensures
            server.coord.is_new(sim),
    {
        SimServer { coord: Coordinator::spawn(sim) }
    }
}

/// The address that a server in `mode` serves gRPC at.
pub open spec fn grpc_address(mode: ServerMode) -> Option<String> {
    match mode {
        ServerMode::Local => None,
        ServerMode::WithGrpc(addr) => Some(addr),
    }
}

/// A server for `sim`, and the address to serve gRPC at, if any.
pub fn create_custom_server<S: Simulation>(mode: ServerMode, sim: S) -> (started: (
    SimServer<S>,
    Option<String>,
))
    ensures
        started.0.coord.is_new(sim),
        started.1 == grpc_address(mode),
{
    let server = SimServer::new(sim);
    match mode {
        ServerMode::Local => (server, None),
        ServerMode::WithGrpc(addr) => (server, Some(addr)),
    }
}

/// A server with the default simulation.
pub fn create_server(mode: ServerMode) -> (started: (SimServer<MySim>, Option<String>))
    ensures
        started.0.coord.is_new(MySim),
        started.1 == grpc_address(mode),
{
    create_custom_server(mode, MySim)
}

/// A server with the default simulation and no gRPC endpoint.
pub fn create_local_server() -> (server: SimServer<MySim>)
    ensures
        server.coord.is_new(MySim),
{
    create_server(ServerMode::Local).0
}

/// A server with the default simulation that serves gRPC at `addr`.
pub fn create_remote_server(addr: &str) -> (started: (SimServer<MySim>, Option<String>))
    ensures
        started.0.coord.is_new(MySim),
        started.1 is Some,
        started.1->0@ == addr@,
{
    create_server(ServerMode::WithGrpc(addr.to_string()))
}

/// Client `id` reported in step `j`, as a contributing client, and no step from then up to step `n`
/// gave a tick.
pub open spec fn counted_since<S: Simulation>(
    steps: Seq<Step<S>>,
    id: u64,
    j: int,
    n: int,
) -> bool {
    &&& 0 <= j <= n
    &&& steps[j].cmd == (Cmd::StepReady { client_id: id })
    &&& steps[j].pre.contributing@.contains(id)
    &&& forall|k: int| j <= k < n ==> !((#[trigger] steps[k]).reply is Ticked)
}

/// A contributing client is ready after a command exactly if the command gave no tick and the
/// client was ready or has just reported.
proof fn lemma_ready_after_a_command<S: Simulation>(step: Step<S>, id: u64)
    requires
        step.pre.well_formed(),
        step.pre.can_take(step.cmd),
        step.pre.handled(step.cmd, step.reply, step.post),
        step.post.running,
    ensures
        step.pre.running,
        step.post.ready@.contains(id) ==> !(step.reply is Ticked) && (step.pre.ready@.contains(id)
            || step.cmd == (Cmd::StepReady { client_id: id }) && step.pre.contributing@.contains(
            id,
        )),
        step.post.contributing@.contains(id) && !(step.reply is Ticked) && (
        step.pre.ready@.contains(id) || step.cmd == (Cmd::StepReady { client_id: id })
            && step.pre.contributing@.contains(id)) ==> step.post.ready@.contains(id),
        step.pre.next_id <= step.post.next_id,
        step.post.contributing@.contains(id) && id <= step.pre.next_id
            ==> step.pre.contributing@.contains(id),
{
}

/// Counters only grow, and a coordinator that runs has run all along.
proof fn lemma_history_runs<S: Simulation>(steps: Seq<Step<S>>, j: int, n: int)
    requires
        is_history(steps),
        0 <= j <= n < steps.len(),
        steps[n].pre.running,
    ensures
        steps[j].pre.running,
        steps[j].pre.next_id <= steps[n].pre.next_id,
    decreases n - j,
{
    if j < n {
        let m = n - 1;
        lemma_history_keeps_the_books(steps, m);
        assert(steps[n].pre == steps[m].post);
        assert(steps[m].pre.handled(steps[m].cmd, steps[m].reply, steps[m].post));
        assert(steps[m].pre.can_take(steps[m].cmd));
        lemma_ready_after_a_command(steps[m], 0);
        lemma_history_runs(steps, j, m);
    }
}

/// A contributing client whose report still counts is ready.
proof fn lemma_counted_means_ready<S: Simulation>(steps: Seq<Step<S>>, id: u64, j: int, n: int)
    requires
        is_history(steps),
        0 <= n < steps.len(),
        counted_since(steps, id, j, n),
        j < n,
        steps[n].pre.running,
        steps[n].pre.contributing@.contains(id),
    ensures
        steps[n].pre.ready@.contains(id),
    decreases n - j,
{
    let m = n - 1;
    lemma_history_keeps_the_books(steps, j);
    lemma_history_keeps_the_books(steps, m);
    assert(steps[n].pre == steps[m].post);
    assert(steps[m].pre.handled(steps[m].cmd, steps[m].reply, steps[m].post));
    assert(steps[m].pre.can_take(steps[m].cmd));
    lemma_ready_after_a_command(steps[m], id);
    lemma_history_runs(steps, j, m);
    assert(id <= steps[j].pre.next_id) by {
        assert(steps[j].pre.client_out@.dom().contains(id));
    }
    assert(!(steps[m].reply is Ticked));
    if j < m {
        assert(counted_since(steps, id, j, m)) by {
            assert forall|k: int| j <= k < m implies !((#[trigger] steps[k]).reply is Ticked) by {}
        }
        lemma_counted_means_ready(steps, id, j, m);
    }
}

/// A ready client has reported as a contributing one, and there has been no tick since.
proof fn lemma_ready_means_counted<S: Simulation>(steps: Seq<Step<S>>, id: u64, n: int)
    requires
        is_history(steps),
        0 <= n < steps.len(),
        steps[n].pre.running,
        steps[n].pre.ready@.contains(id),
    ensures
        exists|j: int| counted_since(steps, id, j, n),
    decreases n,
{
    if n > 0 {
        let m = n - 1;
        lemma_history_keeps_the_books(steps, m);
        assert(steps[n].pre == steps[m].post);
        assert(steps[m].pre.handled(steps[m].cmd, steps[m].reply, steps[m].post));
        assert(steps[m].pre.can_take(steps[m].cmd));
        lemma_ready_after_a_command(steps[m], id);
        if steps[m].pre.ready@.contains(id) {
            lemma_ready_means_counted(steps, id, m);
            let j = choose|j: int| counted_since(steps, id, j, m);
            assert(counted_since(steps, id, j, n));
        } else {
            assert(counted_since(steps, id, m, n));
        }
    }
}

/// A report is kept until the tick: over any history, a contributing client of a running
/// coordinator is ready exactly if it has reported and no tick has been given since. Other clients
/// that register, report, send messages or leave make no difference.
pub proof fn law_a_coordinator_keeps_reports<S: Simulation>(
    steps: Seq<Step<S>>,
    n: int,
    id: u64,
)
    requires
        is_history(steps),
        0 <= n < steps.len(),
        steps[n].pre.running,
        steps[n].pre.contributing@.contains(id),
    ensures
        steps[n].pre.ready@.contains(id) <==> exists|j: int|
            counted_since(steps, id, j, n) && j < n,
{
    if steps[n].pre.ready@.contains(id) {
        lemma_ready_means_counted(steps, id, n);
        let j = choose|j: int| counted_since(steps, id, j, n);
        if j == n {
            // The report of this very step does not count yet, so there was an earlier one.
            assert(n > 0);
            let m = n - 1;
            lemma_history_keeps_the_books(steps, m);
            assert(steps[n].pre == steps[m].post);
            assert(steps[m].pre.handled(steps[m].cmd, steps[m].reply, steps[m].post));
            assert(steps[m].pre.can_take(steps[m].cmd));
            lemma_ready_after_a_command(steps[m], id);
            if steps[m].pre.ready@.contains(id) {
                lemma_ready_means_counted(steps, id, m);
                let i = choose|i: int| counted_since(steps, id, i, m);
                assert(counted_since(steps, id, i, n) && i < n);
            } else {
                assert(counted_since(steps, id, m, n) && m < n);
            }
        }
    }
    if exists|j: int| counted_since(steps, id, j, n) && j < n {
        let j = choose|j: int| counted_since(steps, id, j, n) && j < n;
        lemma_counted_means_ready(steps, id, j, n);
    }
}

/// Lockstep, both ways: over any history, a report gives a tick exactly if it comes from a
/// contributing client of a running coordinator and every contributing client has then reported
/// since the tick before.
pub proof fn law_a_report_ticks_when_everybody_has_reported<S: Simulation>(
    steps: Seq<Step<S>>,
    n: int,
    reporter: u64,
)
    requires
        is_history(steps),
        0 <= n < steps.len(),
        steps[n].cmd == (Cmd::StepReady { client_id: reporter }),
    ensures
        steps[n].reply is Ticked <==> {
            &&& steps[n].pre.running
            &&& steps[n].pre.contributing@.contains(reporter)
            &&& forall|id: u64| #[trigger]
                steps[n].pre.contributing@.contains(id) ==> exists|j: int|
                    counted_since(steps, id, j, n)
        },
{
    let pre = steps[n].pre;
    lemma_history_keeps_the_books(steps, n);
    assert(pre.handled(steps[n].cmd, steps[n].reply, steps[n].post));
    let tick = match steps[n].reply {
        Reply::Ticked(tick) => Some(tick),
        _ => None,
    };
    law_tick_needs_every_contributor(pre, reporter, tick, steps[n].post);
    if pre.running && pre.contributing@.contains(reporter) {
        assert(counted_since(steps, reporter, n, n));
        assert forall|id: u64| #[trigger] pre.contributing@.contains(id) implies (exists|j: int|
            counted_since(steps, id, j, n)) == pre.ready@.insert(reporter).contains(id) by {
            if id != reporter {
                if pre.ready@.contains(id) {
                    lemma_ready_means_counted(steps, id, n);
                }
                if exists|j: int| counted_since(steps, id, j, n) {
                    let j = choose|j: int| counted_since(steps, id, j, n);
                    assert(j < n);
                    lemma_counted_means_ready(steps, id, j, n);
                }
            }
        }
        if forall|id: u64| #[trigger]
            pre.contributing@.contains(id) ==> exists|j: int| counted_since(steps, id, j, n) {
            assert(pre.contributing@ =~= pre.ready@.insert(reporter));
        }
    }
}

/// A command of a running coordinator touches the client that it is about. Of every other client
/// it leaves as they are that it is registered, its channel, whether it contributes, and, unless
/// there is a tick, whether it is ready.
pub proof fn law_a_command_leaves_other_clients_alone<S: Simulation>(
    pre: Coordinator<S>,
    cmd: Cmd,
    reply: Reply,
    post: Coordinator<S>,
    id: u64,
)
    requires
        pre.running,
        pre.can_take(cmd),
        pre.handled(cmd, reply, post),
        !(cmd is Shutdown),
        cmd != (Cmd::Remove { client_id: id }),
        !(reply matches Reply::Registered(new_id, _) && new_id == id),
    ensures
        post.running,
        post.client_out@.dom().contains(id) == pre.client_out@.dom().contains(id),
        pre.client_out@.dom().contains(id) ==> events_into(post.client_out@[id]) == events_into(
            pre.client_out@[id],
        ),
        post.contributing@.contains(id) == pre.contributing@.contains(id),
        !(reply is Ticked) && cmd != (Cmd::StepReady { client_id: id }) ==> post.ready@.contains(id)
            == pre.ready@.contains(id),
        reply is Ticked ==> !post.ready@.contains(id),
{
    if let Reply::Registered(new_id, _) = reply {
        if pre.client_out@.dom().contains(id) {
            assert(post.client_out@.remove(new_id)[id] == post.client_out@[id]);
            assert(pre.client_out@.remove(new_id)[id] == pre.client_out@[id]);
        }
    }
}

/// A client that registers gets a fresh id and a channel of its own that holds 256 events, over
/// which nothing has passed. It contributes if it says so, and it is not ready.
pub proof fn law_a_coordinator_connects_new_clients<S: Simulation>(
    pre: Coordinator<S>,
    name: String,
    contributing: bool,
    reply: Reply,
    post: Coordinator<S>,
)
    requires
        pre.well_formed(),
        pre.can_take(Cmd::Register { name, contributing }),
        pre.handled(Cmd::Register { name, contributing }, reply, post),
    ensures
        reply is Registered,
        ({
            let id = reply->Registered_0;
            let inbox = reply->Registered_1;
            &&& !pre.client_out@.dom().contains(id)
            &&& post.client_out@.dom().contains(id)
            &&& events_into(post.client_out@[id]) == events_from(inbox)
            &&& events_from(inbox).capacity == Some(256nat)
            &&& event_sends(post.client_out@[id]).len() == 0
            &&& event_receives(inbox).len() == 0
            &&& post.contributing@.contains(id) == contributing
            &&& !post.ready@.contains(id)
            &&& forall|other: u64| #[trigger]
                pre.client_out@.dom().contains(other) ==> events_into(pre.client_out@[other])
                    != events_from(inbox)
        }),
        post.sim == pre.sim,
        post.tick_seq == pre.tick_seq,
{
}

/// A client that leaves is gone from the books, and its leaving changes nothing else: no tick is
/// given, nobody is told anything, and the simulation is left alone.
pub proof fn law_a_client_leaves_quietly<S: Simulation>(
    pre: Coordinator<S>,
    client_id: u64,
    reply: Reply,
    post: Coordinator<S>,
    id: u64,
)
    requires
        pre.running,
        pre.handled(Cmd::Remove { client_id }, reply, post),
    ensures
        reply is Done,
        !post.client_out@.dom().contains(client_id),
        !post.contributing@.contains(client_id),
        !post.ready@.contains(client_id),
        pre.client_out@.dom().contains(id) && id != client_id ==> post.client_out@.dom().contains(
            id,
        ) && post.client_out@[id] == pre.client_out@[id],
        post.sim == pre.sim,
        post.tick_seq == pre.tick_seq,
        post.next_id == pre.next_id,
        post.running,
{
}

/// A report tells every registered client the tick that it gives, which is the next number at time
/// zero, and nothing else; a report that gives no tick tells nobody anything. The simulation is
/// left alone.
pub proof fn law_a_report_tells_the_tick<S: Simulation>(
    pre: Coordinator<S>,
    client_id: u64,
    reply: Reply,
    post: Coordinator<S>,
    id: u64,
)
    requires
        pre.can_take(Cmd::StepReady { client_id }),
        pre.handled(Cmd::StepReady { client_id }, reply, post),
        pre.client_out@.dom().contains(id),
    ensures
        post.client_out@.dom().contains(id),
        post.sim == pre.sim,
        match reply {
            Reply::Registered(_, _) => false,
            Reply::Done => post.client_out@[id] == pre.client_out@[id],
            Reply::Ticked(tick) => {
                &&& tick.seq == pre.tick_seq + 1
                &&& tick.time_bits == 0
                &&& got_exactly(
                    pre.client_out@[id],
                    post.client_out@[id],
                    seq![ServerMsg { body: Some(ServerMsgBody::Tick(tick)) }],
                )
            },
        },
{
    if let Reply::Ticked(tick) = reply {
        let msgs = seq![ServerMsg::of_tick(tick)];
        lemma_offer_is_recorded(pre.client_out@[id], msgs, post.client_out@[id]);
        assert(msgs =~= seq![ServerMsg { body: Some(ServerMsgBody::Tick(tick)) }]);
    }
}

/// What an offer to a client of the coordinator does to the record.
proof fn lemma_offer_is_recorded(
    before: Sender<ServerMsg>,
    msgs: Seq<ServerMsg>,
    after: Sender<ServerMsg>,
)
    requires
        events_into(after) == events_into(before),
        extends_by(event_sends(before), event_sends(after), msgs),
    ensures
        got_exactly(before, after, msgs),
{
    let start = event_sends(before);
    let end = event_sends(after);
    assert forall|i: int| 0 <= i < start.len() implies #[trigger] end[i] == start[i] by {
        assert(end.take(start.len() as int)[i] == end[i]);
    }
    assert forall|i: int| 0 <= i < msgs.len() implies (#[trigger] end[start.len() + i]).0
        == msgs[i] by {
        assert(end[start.len() + i].0 == msgs[i]);
    }
}

/// The simulation of a running coordinator gets each message as it was sent. Every client is told
/// what it answers, in order, or the text of its error, and nothing else. The books are left alone.
pub proof fn law_a_coordinator_hands_messages_on_as_sent<S: Simulation>(
    pre: Coordinator<S>,
    msg: ClientMsg,
    reply: Reply,
    post: Coordinator<S>,
)
    requires
        pre.running,
        pre.handled(Cmd::Message { msg }, reply, post),
    ensures
        reply is Done,
        post.contributing@ == pre.contributing@,
        post.ready@ == pre.ready@,
        post.tick_seq == pre.tick_seq,
        post.next_id == pre.next_id,
        post.running,
        post.client_out@.dom() == pre.client_out@.dom(),
        exists|answer: Result<Vec<ServerMsg>, SimError>|
            {
                &&& #[trigger] S::handles(pre.sim, msg, post.sim, answer)
                &&& match answer {
                    Ok(msgs) => forall|id: u64| #[trigger]
                        pre.client_out@.dom().contains(id) ==> got_exactly(
                            pre.client_out@[id],
                            post.client_out@[id],
                            msgs@,
                        ),
                    Err(error) => exists|told: ServerMsg|
                        {
                            &&& #[trigger] tells(told, "sim error: "@ + error.message@)
                            &&& forall|id: u64| #[trigger]
                                pre.client_out@.dom().contains(id) ==> got_exactly(
                                    pre.client_out@[id],
                                    post.client_out@[id],
                                    seq![told],
                                )
                        },
                }
            },
{
    let answer = choose|answer: Result<Vec<ServerMsg>, SimError>|
        {
            &&& #[trigger] S::handles(pre.sim, msg, post.sim, answer)
            &&& match answer {
                Ok(msgs) => out_offered(pre.client_out@, msgs@, post.client_out@),
                Err(error) => exists|told: ServerMsg|
                    told.is_error(error_text(error)) && #[trigger] out_offered(
                        pre.client_out@,
                        seq![told],
                        post.client_out@,
                    ),
            }
        };
    assert(S::handles(pre.sim, msg, post.sim, answer));
    match answer {
        Ok(msgs) => {
            assert forall|id: u64| #[trigger] pre.client_out@.dom().contains(id) implies
                got_exactly(pre.client_out@[id], post.client_out@[id], msgs@) by {
                lemma_offer_is_recorded(pre.client_out@[id], msgs@, post.client_out@[id]);
            }
        },
        Err(error) => {
            let told = choose|told: ServerMsg|
                told.is_error(error_text(error)) && #[trigger] out_offered(
                    pre.client_out@,
                    seq![told],
                    post.client_out@,
                );
            assert(tells(told, "sim error: "@ + error.message@));
            assert forall|id: u64| #[trigger] pre.client_out@.dom().contains(id) implies
                got_exactly(pre.client_out@[id], post.client_out@[id], seq![told]) by {
                lemma_offer_is_recorded(pre.client_out@[id], seq![told], post.client_out@[id]);
            }
        },
    }
}

/// `msg` is an error message that says `text`.
pub open spec fn tells(msg: ServerMsg, text: Seq<char>) -> bool {
    msg.body matches Some(ServerMsgBody::ErrorMsg(error)) && error.message@ == text
}

/// Stopping drops every client. A coordinator that was stopped gives no tick, registers nobody and
/// hands nothing to the simulation any more.
pub proof fn law_a_stopped_coordinator_does_nothing<S: Simulation>(
    pre: Coordinator<S>,
    stopped: Coordinator<S>,
    cmd: Cmd,
    reply: Reply,
    post: Coordinator<S>,
    id: u64,
)
    requires
        pre.handled(Cmd::Shutdown, Reply::Done, stopped),
        stopped.can_take(cmd),
        stopped.handled(cmd, reply, post),
    ensures
        !stopped.running,
        !stopped.client_out@.dom().contains(id),
        !stopped.contributing@.contains(id),
        stopped.sim == pre.sim,
        stopped.tick_seq == pre.tick_seq,
        reply is Done,
        !post.running,
        !post.client_out@.dom().contains(id),
        post.sim == pre.sim,
        post.tick_seq == pre.tick_seq,
{
}

/// A message becomes the command that its kind says, with nothing lost: a registration keeps its
/// name and role, a report is that of the client that the message names, and every other message
/// goes to the simulation as it is.
pub proof fn law_messages_become_commands(msg: ClientMsg)
    ensures
        match msg.body {
            Some(ClientMsgBody::Register(request)) => command_of(msg) == (Cmd::Register {
                name: request.client_name,
                contributing: request.step_participant,
            }),
            Some(ClientMsgBody::StepReady(_)) => command_of(msg) == (Cmd::StepReady {
                client_id: msg.client_id,
            }),
            Some(ClientMsgBody::Shutdown(_)) => command_of(msg) == (Cmd::Message { msg }),
            Some(ClientMsgBody::ParamUpdate(_)) => command_of(msg) == (Cmd::Message { msg }),
            Some(ClientMsgBody::Control(_)) => command_of(msg) == (Cmd::Message { msg }),
            None => command_of(msg) == (Cmd::Message { msg }),
        },
{
}

/// A coordinator that has just been made runs, has the simulation that it was made with, knows no
/// client, and has given no id and no tick.
pub proof fn law_a_coordinator_starts_empty<S: Simulation>(
    coord: Coordinator<S>,
    sim: S,
    id: u64,
)
    requires
        coord.is_new(sim),
    ensures
        coord.running,
        coord.sim == sim,
        coord.next_id == 0,
        coord.tick_seq == 0,
        !coord.client_out@.dom().contains(id),
        !coord.contributing@.contains(id),
        !coord.ready@.contains(id),
{
}

/// A running coordinator takes every command, as long as its two counters have room.
pub proof fn law_a_running_coordinator_takes_commands<S: Simulation>(
    coord: Coordinator<S>,
    cmd: Cmd,
)
    requires
        coord.running,
        coord.next_id < u64::MAX,
        coord.tick_seq < u64::MAX,
    ensures
        coord.can_take(cmd),
{
}

/// The report of a client that does not contribute changes nothing.
pub proof fn law_a_report_of_a_viewer_changes_nothing<S: Simulation>(
    pre: Coordinator<S>,
    client_id: u64,
    reply: Reply,
    post: Coordinator<S>,
)
    requires
        pre.can_take(Cmd::StepReady { client_id }),
        pre.handled(Cmd::StepReady { client_id }, reply, post),
        !pre.contributing@.contains(client_id),
    ensures
        reply is Done,
        post.ready@ == pre.ready@,
        post.contributing@ == pre.contributing@,
        post.client_out@ == pre.client_out@,
        post.tick_seq == pre.tick_seq,
        post.next_id == pre.next_id,
        post.sim == pre.sim,
        post.running == pre.running,
{
}

/// A server serves gRPC at the address that its mode names, and nowhere if it names none.
pub proof fn law_a_server_serves_at_its_address(mode: ServerMode)
    ensures
        match mode {
            ServerMode::Local => grpc_address(mode) is None,
            ServerMode::WithGrpc(addr) => grpc_address(mode) == Some(addr),
        },
{
}

} // verus!
