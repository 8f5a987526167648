//! The viewer: how it is launched, and what it shows.

use crate::channel::{
    bounded_events, bounded_signals, event_receives, event_sends, events_from, events_into,
    request_sends, send_event, signal_attempts, signal_waits, signals_from, signals_into,
    try_signal, wait_signal, Receipt,
};
use crate::client::{law_a_client_speaks_under_its_id, Client};
use crate::interface::{ClientMsg, ClientMsgBody, ServerMsg, ServerMsgBody, StepReady, Tick};
use crate::link::{
    all_accepted, collect, collected, forwarded, law_a_step_is_one_report_and_one_wait,
    law_passing_on_loses_nothing, offered_since, passed_through, received_since, ClientError,
};
use crate::text::{decimal, to_decimal};
use crossbeam_channel::{Receiver, Sender};
use vstd::prelude::*;

verus! {

/// How to run the visualizer.
#[derive(Debug, PartialEq, Eq)]
pub enum VisualizerMode {
    /// Remote non-contributing viewer (does not participate in the step barrier).
    RemoteNonBlocking { addr: String },
    /// Remote contributing viewer (waits at the step barrier each frame).
    RemoteBlocking { addr: String },
    /// Local contributing viewer that creates its own in-process server (no gRPC).
    LocalBlockingWithServer,
    /// Start a gRPC server in this process on `addr`, then connect as a remote non-contributing
    /// viewer.
    RemoteNonBlockingWithServer { addr: String },
    /// Start a gRPC server in this process on `addr`, then connect as a remote contributing
    /// viewer.
    RemoteBlockingWithServer { addr: String },
}

/// One step of launching the visualizer.
#[derive(Debug, PartialEq, Eq)]
pub enum LaunchStep {
    /// Start a server in this process, without gRPC.
    StartLocalServer,
    /// Start a server in this process that serves gRPC at `addr`.
    StartRemoteServer { addr: String },
    /// Connect the viewer to the server of this process.
    ConnectLocal { participant: bool },
    /// Connect the viewer to the gRPC server at `addr`.
    ConnectRemote { participant: bool, addr: String },
    /// Start the thread that feeds the viewer.
    SpawnViewerWorker,
    /// Connect a client to `addr` that only steps, with `work_ms` milliseconds between steps.
    ConnectStepper { addr: String, work_ms: u64 },
    /// Show the viewer until it is closed.
    RunViewer,
    /// Wait for the client that only steps.
    JoinStepper,
    /// Stop the server of this process.
    DropServer,
}

/// The milliseconds that the stepping client waits between steps.
pub const STEPPER_WORK_MS: u64 = 1;

/// The steps that launch the visualizer in `mode`. A viewer that does not take part in the
/// barrier of its own server comes with a client that steps it.
pub open spec fn launch_steps(mode: VisualizerMode) -> Seq<LaunchStep> {
    match mode {
        VisualizerMode::LocalBlockingWithServer => seq![
            LaunchStep::StartLocalServer,
            LaunchStep::ConnectLocal { participant: true },
            LaunchStep::SpawnViewerWorker,
            LaunchStep::RunViewer,
        ],
        VisualizerMode::RemoteBlockingWithServer { addr } => seq![
            LaunchStep::StartRemoteServer { addr },
            LaunchStep::ConnectRemote { participant: true, addr },
            LaunchStep::SpawnViewerWorker,
            LaunchStep::RunViewer,
            LaunchStep::DropServer,
        ],
        VisualizerMode::RemoteNonBlockingWithServer { addr } => seq![
            LaunchStep::StartRemoteServer { addr },
            LaunchStep::ConnectRemote { participant: false, addr },
            LaunchStep::SpawnViewerWorker,
            LaunchStep::ConnectStepper { addr, work_ms: STEPPER_WORK_MS },
            LaunchStep::RunViewer,
            LaunchStep::JoinStepper,
            LaunchStep::DropServer,
        ],
        VisualizerMode::RemoteNonBlocking { addr } => seq![
            LaunchStep::ConnectRemote { participant: false, addr },
            LaunchStep::SpawnViewerWorker,
            LaunchStep::RunViewer,
        ],
        VisualizerMode::RemoteBlocking { addr } => seq![
            LaunchStep::ConnectRemote { participant: true, addr },
            LaunchStep::SpawnViewerWorker,
            LaunchStep::RunViewer,
        ],
    }
}

/// The steps that launch the visualizer in `mode`, to be taken in order until one fails.
pub fn run(mode: VisualizerMode) -> (steps: Vec<LaunchStep>)
    ensures
        steps@ == launch_steps(mode),
{
    let steps: Vec<LaunchStep> = match mode {
        VisualizerMode::LocalBlockingWithServer => vec![
            LaunchStep::StartLocalServer,
            LaunchStep::ConnectLocal { participant: true },
            LaunchStep::SpawnViewerWorker,
            LaunchStep::RunViewer,
        ],
        VisualizerMode::RemoteBlockingWithServer { addr } => vec![
            LaunchStep::StartRemoteServer { addr: addr.clone() },
            LaunchStep::ConnectRemote { participant: true, addr },
            LaunchStep::SpawnViewerWorker,
            LaunchStep::RunViewer,
            LaunchStep::DropServer,
        ],
        VisualizerMode::RemoteNonBlockingWithServer { addr } => vec![
            LaunchStep::StartRemoteServer { addr: addr.clone() },
            LaunchStep::ConnectRemote { participant: false, addr: addr.clone() },
            LaunchStep::SpawnViewerWorker,
            LaunchStep::ConnectStepper { addr, work_ms: STEPPER_WORK_MS },
            LaunchStep::RunViewer,
            LaunchStep::JoinStepper,
            LaunchStep::DropServer,
        ],
        VisualizerMode::RemoteNonBlocking { addr } => vec![
            LaunchStep::ConnectRemote { participant: false, addr },
            LaunchStep::SpawnViewerWorker,
            LaunchStep::RunViewer,
        ],
        VisualizerMode::RemoteBlocking { addr } => vec![
            LaunchStep::ConnectRemote { participant: true, addr },
            LaunchStep::SpawnViewerWorker,
            LaunchStep::RunViewer,
        ],
    };
    assert(steps@ =~= launch_steps(mode));
    steps
}

/// True of the modes in which the viewer waits at the step barrier.
pub open spec fn blocks(mode: VisualizerMode) -> bool {
    mode is RemoteBlocking || mode is LocalBlockingWithServer || mode is RemoteBlockingWithServer
}

/// True of the modes that start a server in this process.
pub open spec fn starts_server(mode: VisualizerMode) -> bool {
    ||| mode is LocalBlockingWithServer
    ||| mode is RemoteNonBlockingWithServer
    ||| mode is RemoteBlockingWithServer
}

/// True of the steps that connect the viewer.
pub open spec fn connects(step: LaunchStep) -> bool {
    step is ConnectLocal || step is ConnectRemote
}

/// True of the steps that start a server.
pub open spec fn starts(step: LaunchStep) -> bool {
    step is StartLocalServer || step is StartRemoteServer
}

/// A launch keeps what its mode says. The viewer takes part in the barrier exactly in the blocking
/// modes. A server is started exactly in the modes that say so, before anything connects. A server
/// whose viewer does not take part gets a client that steps it, and no other mode has one.
pub proof fn law_launch_matches_mode(mode: VisualizerMode)
    ensures
        ({
            let steps = launch_steps(mode);
            &&& forall|i: int|
                0 <= i < steps.len() ==> match #[trigger] steps[i] {
                    LaunchStep::ConnectLocal { participant } => participant == blocks(mode),
                    LaunchStep::ConnectRemote { participant, .. } => participant == blocks(mode),
                    _ => true,
                }
            &&& starts_server(mode) == starts(steps[0])
            &&& forall|i: int| 0 < i < steps.len() ==> !starts(#[trigger] steps[i])
            &&& exists|i: int| 0 <= i < steps.len() && connects(#[trigger] steps[i])
            &&& (starts_server(mode) && !blocks(mode)) == exists|i: int|
                0 <= i < steps.len() && (#[trigger] steps[i]) is ConnectStepper
        }),
{
    let steps = launch_steps(mode);
    assert(connects(steps[0]) || connects(steps[1]));
    if mode is RemoteNonBlockingWithServer {
        assert(steps[3] is ConnectStepper);
    }
}

/// How many events may wait between the worker and the viewer.
pub const VIEWER_BACKLOG: usize = 1024;

/// What the worker does next.
#[derive(Debug, Clone, Copy, PartialEq, Eq)]
pub enum Phase {
    /// Step the simulation, and show the viewer the tick.
    Step,
    /// Wait until the viewer is done with the frame.
    Frame,
    /// Pass on the events that are there.
    Drain,
}

/// What feeds the viewer with events. A client that takes part in the barrier goes round all
/// three phases; another one only passes events on.
pub struct ViewerWorker {
    pub sim: Client,
    /// The way to the viewer.
    pub tx_app: Sender<ServerMsg>,
    /// Where the viewer signals that a frame is done.
    pub rx_ready: Receiver<()>,
    pub phase: Phase,
}

/// Where a round of the worker begins.
pub open spec fn first_phase(participant: bool) -> Phase {
    if participant {
        Phase::Step
    } else {
        Phase::Drain
    }
}

/// The worker for `sim`, with what the viewer holds: where its events come from, and where to
/// signal that a frame is done. At most one such signal waits at a time.
pub fn spawn_viewer_worker(sim: Client) -> (parts: (
    ViewerWorker,
    Receiver<ServerMsg>,
    Sender<()>,
))
    ensures
        parts.0.sim == sim,
        parts.0.is_at_start(),
        events_into(parts.0.tx_app) == events_from(parts.1),
        events_from(parts.1).capacity == Some(VIEWER_BACKLOG as nat),
        event_sends(parts.0.tx_app).len() == 0,
        event_receives(parts.1).len() == 0,
        signals_into(parts.2) == signals_from(parts.0.rx_ready),
        signals_into(parts.2).capacity == Some(1nat),
        signal_attempts(parts.2).len() == 0,
        signal_waits(parts.0.rx_ready).len() == 0,
{
    let (tx_app, rx_app) = bounded_events(VIEWER_BACKLOG, None);
    let (tx_ready, rx_ready) = bounded_signals(1);
    let phase = if sim.step_participant() {
        Phase::Step
    } else {
        Phase::Drain
    };
    (ViewerWorker { sim, tx_app, rx_ready, phase }, rx_app, tx_ready)
}

impl ViewerWorker {
    /// The worker is at the beginning of a round.
    pub open spec fn is_at_start(self) -> bool {
        self.phase == first_phase(self.sim.step_participant)
    }

    /// The worker is still the same: its client and its channels have not changed.
    pub open spec fn same_worker(self, other: ViewerWorker) -> bool {
        &&& self.sim.same_client(other.sim)
        &&& events_into(self.tx_app) == events_into(other.tx_app)
        &&& signals_from(self.rx_ready) == signals_from(other.rx_ready)
    }

    /// `post` and `outcome` come from this worker when its client reports that it is ready and
    /// that comes to `waited`: a tick goes to the viewer, and an error ends the worker.
    pub open spec fn presented(
        self,
        waited: Result<Tick, ClientError>,
        outcome: Result<(), ClientError>,
        post: ViewerWorker,
    ) -> bool {
        &&& self.sim.ends.sent_and_waited(
            self.sim.message(ClientMsgBody::StepReady(StepReady {  })),
            waited,
            post.sim.ends,
        )
        &&& post.rx_ready == self.rx_ready
        &&& match waited {
            Err(error) => {
                &&& outcome == Err::<(), ClientError>(error)
                &&& post.tx_app == self.tx_app
            },
            Ok(tick) => {
                let accepted = event_sends(post.tx_app).last().1;
                &&& event_sends(post.tx_app) == event_sends(self.tx_app).push(
                    (ServerMsg::of_tick(tick), accepted),
                )
                &&& outcome == if accepted {
                    Ok::<(), ClientError>(())
                } else {
                    Err::<(), ClientError>(ClientError::Rejected)
                }
            },
        }
        &&& post.phase == if outcome is Ok {
            Phase::Frame
        } else {
            Phase::Step
        }
    }

    /// `post` comes from this worker by waiting for the viewer. A viewer that is gone is waited
    /// for no longer.
    pub open spec fn released(self, post: ViewerWorker) -> bool {
        &&& post.sim == self.sim
        &&& post.tx_app == self.tx_app
        &&& signal_waits(post.rx_ready) == signal_waits(self.rx_ready).push(
            signal_waits(post.rx_ready).last(),
        )
        &&& post.phase == Phase::Drain
    }

    /// `post` and `outcome` come from this worker by passing on the events that are there.
    pub open spec fn drained(self, outcome: Result<(), ClientError>, post: ViewerWorker) -> bool {
        &&& self.sim.ends.only_received(post.sim.ends)
        &&& event_sends(self.tx_app).is_prefix_of(event_sends(post.tx_app))
        &&& forwarded(
            self.sim.ends.seen_by(post.sim.ends),
            offered_since(event_sends(self.tx_app), post.tx_app),
            outcome,
        )
        &&& post.rx_ready == self.rx_ready
        &&& post.phase == if outcome is Ok {
            first_phase(self.sim.step_participant)
        } else {
            Phase::Drain
        }
    }

    /// `post` and `outcome` come from this worker by its next phase.
    pub open spec fn advanced(self, outcome: Result<(), ClientError>, post: ViewerWorker) -> bool {
        &&& self.same_worker(post)
        &&& match self.phase {
            Phase::Step => exists|waited: Result<Tick, ClientError>| #[trigger]
                self.presented(waited, outcome, post),
            Phase::Frame => outcome is Ok && self.released(post),
            Phase::Drain => self.drained(outcome, post),
        }
    }

    /// Does what the phase says, and goes on to the next one. An error ends the worker.
    pub fn advance(&mut self) -> (outcome: Result<(), ClientError>)
        ensures
            old(self).advanced(outcome, *final(self)),
    {
        match self.phase {
            Phase::Step => {
                let waited: Result<Tick, ClientError> = self.sim.step_ready();
                let outcome: Result<(), ClientError> = match waited {
                    Err(error) => Err(error),
                    Ok(tick) => if send_event(&mut self.tx_app, ServerMsg::tick(tick)) {
                        self.phase = Phase::Frame;
                        Ok(())
                    } else {
                        Err(ClientError::Rejected)
                    },
                };
                assert(old(self).presented(waited, outcome, *self));
                outcome
            },
            Phase::Frame => {
                let _ = wait_signal(&mut self.rx_ready);
                self.phase = Phase::Drain;
                Ok(())
            },
            Phase::Drain => {
                let outcome: Result<(), ClientError> = self.sim.forward_all(&mut self.tx_app);
                if outcome.is_ok() {
                    self.phase = if self.sim.step_participant() {
                        Phase::Step
                    } else {
                        Phase::Drain
                    };
                }
                outcome
            },
        }
    }

    /// How many reports the client has made so far.
    pub open spec fn steps_made(self) -> int {
        request_sends(self.sim.ends.to_server).len() as int
    }

    /// How many times the worker has waited for the viewer so far.
    pub open spec fn frames_awaited(self) -> int {
        signal_waits(self.rx_ready).len() as int
    }
}

/// One phase of the worker.
pub struct ViewerStep {
    pub pre: ViewerWorker,
    pub outcome: Result<(), ClientError>,
    pub post: ViewerWorker,
}

/// `steps` follow one another, from the beginning of a round, and none but the last one fails.
pub open spec fn is_viewer_run(steps: Seq<ViewerStep>) -> bool {
    &&& steps.len() > 0 ==> steps[0].pre.is_at_start()
    &&& forall|i: int|
        0 <= i < steps.len() ==> (#[trigger] steps[i]).pre.advanced(steps[i].outcome, steps[i].post)
    &&& forall|i: int, j: int|
        0 <= i < steps.len() && j == i + 1 && j < steps.len() ==> (#[trigger] steps[j]).pre == (
        #[trigger] steps[i]).post && steps[i].outcome is Ok
}

/// A viewer that takes part in the barrier keeps the simulation in step with its frames, over any
/// number of rounds. When it is about to step, it has waited for the viewer once for each step
/// before. When it is about to wait for the viewer, it has made exactly one step since the last
/// wait, and the tick of that step is the last thing that the viewer was sent.
pub proof fn law_each_step_waits_for_its_frame(steps: Seq<ViewerStep>, n: int)
    requires
        is_viewer_run(steps),
        0 <= n < steps.len(),
        steps[0].pre.sim.step_participant,
    ensures
        ({
            let start = steps[0].pre;
            let now = steps[n].pre;
            let made = now.steps_made() - start.steps_made();
            let awaited = now.frames_awaited() - start.frames_awaited();
            &&& now.sim.step_participant
            &&& made == if now.phase is Frame {
                awaited + 1
            } else {
                awaited
            }
            &&& now.phase is Frame ==> n > 0 && exists|tick: Tick|
                {
                    &&& #[trigger] steps[n - 1].pre.presented(
                        Ok(tick),
                        Ok(()),
                        now,
                    )
                    &&& event_sends(now.tx_app) == event_sends(steps[n - 1].pre.tx_app).push(
                        (ServerMsg::of_tick(tick), true),
                    )
                }
        }),
    decreases n,
{
    if n > 0 {
        law_each_step_waits_for_its_frame(steps, n - 1);
        let before = steps[n - 1];
        let now = steps[n].pre;
        assert(now == before.post);
        assert(before.pre.advanced(before.outcome, before.post));
        if before.pre.phase is Step {
            let waited = choose|waited: Result<Tick, ClientError>| #[trigger]
                before.pre.presented(waited, before.outcome, before.post);
            assert(before.outcome == Ok::<(), ClientError>(()));
            assert(waited is Ok);
            let tick = waited->Ok_0;
            assert(before.pre.presented(Ok(tick), Ok(()), now));
        }
    }
}

/// The record of a tick that the viewer took.
pub open spec fn shown(tick: Tick) -> (ServerMsg, bool) {
    (ServerMsg::of_tick(tick), true)
}

impl ViewerWorker {
    /// `post` comes from this worker by a step that gave `tick` and sent the viewer that tick.
    pub open spec fn shows_tick(self, tick: Tick, post: ViewerWorker) -> bool {
        &&& self.sim.ends.sent_and_waited(
            self.sim.message(ClientMsgBody::StepReady(StepReady {  })),
            Ok(tick),
            post.sim.ends,
        )
        &&& event_sends(post.tx_app) == event_sends(self.tx_app).push(shown(tick))
    }

    /// `post` comes from this worker by sending the viewer the events that came in, each once and
    /// in order.
    pub open spec fn shows_events(self, post: ViewerWorker) -> bool {
        let seen = self.sim.ends.seen_by(post.sim.ends);
        let offered = offered_since(event_sends(self.tx_app), post.tx_app);
        &&& event_sends(post.tx_app) == event_sends(self.tx_app) + offered
        &&& seen.len() == offered.len() + 1
        &&& passed_through(seen, offered)
        &&& all_accepted(offered)
    }
}

/// A step that succeeds sends its tick.
proof fn lemma_step_shows_its_tick(
    pre: ViewerWorker,
    outcome: Result<(), ClientError>,
    post: ViewerWorker,
)
    requires
        pre.phase is Step,
        pre.advanced(outcome, post),
        outcome is Ok,
    ensures
        exists|tick: Tick| pre.shows_tick(tick, post),
{
    let waited = choose|waited: Result<Tick, ClientError>| #[trigger]
        pre.presented(waited, outcome, post);
    assert(pre.shows_tick(waited->Ok_0, post));
}

/// Passing on sends the events that came in.
proof fn lemma_drain_shows_the_events(
    pre: ViewerWorker,
    outcome: Result<(), ClientError>,
    post: ViewerWorker,
)
    requires
        pre.drained(outcome, post),
        outcome is Ok,
    ensures
        pre.shows_events(post),
{
    assert(event_sends(post.tx_app) =~= event_sends(pre.tx_app) + offered_since(
        event_sends(pre.tx_app),
        post.tx_app,
    ));
}

/// Each tick that a step gave is shown once: the step sends that tick and nothing else, waiting
/// for the viewer sends nothing, and what is passed on afterwards are the events that came in
/// after the tick, each once and in order.
pub proof fn law_each_tick_is_shown_once(steps: Seq<ViewerStep>, n: int)
    requires
        is_viewer_run(steps),
        0 <= n < steps.len(),
        steps[n].outcome is Ok,
    ensures
        ({
            let pre = steps[n].pre;
            let post = steps[n].post;
            match pre.phase {
                Phase::Step => exists|tick: Tick| pre.shows_tick(tick, post),
                Phase::Frame => post.tx_app == pre.tx_app && post.sim == pre.sim,
                Phase::Drain => pre.shows_events(post),
            }
        }),
{
    let pre = steps[n].pre;
    let post = steps[n].post;
    let outcome = steps[n].outcome;
    assert(pre.advanced(outcome, post));
    if pre.phase is Step {
        lemma_step_shows_its_tick(pre, outcome, post);
    } else if pre.phase is Drain {
        lemma_drain_shows_the_events(pre, outcome, post);
    }
}

/// Where the viewer signals that it is done with a frame.
pub struct StepBarrier {
    pub done: Sender<()>,
}

impl StepBarrier {
    /// The end of a frame: the worker is released if the frame limiter has run out, or for as
    /// long as the space bar is held. A signal that still waits is enough.
    pub fn end_frame(&mut self, limiter_finished: bool, space_pressed: bool)
        ensures
            signals_into(final(self).done) == signals_into(old(self).done),
            if limiter_finished || space_pressed {
                signal_attempts(final(self).done) == signal_attempts(old(self).done).push(
                    signal_attempts(final(self).done).last(),
                )
            } else {
                *final(self) == *old(self)
            },
    {
        if limiter_finished || space_pressed {
            let _ = try_signal(&mut self.done);
        }
    }
}

/// What the viewer knows of the simulation.
#[derive(Debug, Clone, Copy, PartialEq, Eq)]
pub struct SimState {
    /// Newest tick from the server.
    pub tick: u64,
}

/// Something that the viewer noticed among the events.
#[derive(Debug, Clone, Copy, PartialEq, Eq)]
pub enum Notice {
    /// A tick with this number.
    Tick(u64),
    /// A state of the simulation.
    State,
}

/// What the viewer notices of an event.
pub open spec fn notice_of(msg: ServerMsg) -> Option<Notice> {
    match msg.body {
        Some(ServerMsgBody::Tick(tick)) => Some(Notice::Tick(tick.seq)),
        Some(ServerMsgBody::State(_)) => Some(Notice::State),
        _ => None,
    }
}

/// What the viewer notices of events, in order.
pub open spec fn notices_of(msgs: Seq<ServerMsg>) -> Seq<Notice>
    decreases msgs.len(),
{
    if msgs.len() == 0 {
        Seq::empty()
    } else {
        let before = notices_of(msgs.drop_last());
        match notice_of(msgs.last()) {
            Some(notice) => before.push(notice),
            None => before,
        }
    }
}

/// The tick to show after `notices`: the last one among them, or `shown` if there is none.
pub open spec fn newest_tick(notices: Seq<Notice>, shown: u64) -> u64
    decreases notices.len(),
{
    if notices.len() == 0 {
        shown
    } else {
        match notices.last() {
            Notice::Tick(seq) => seq,
            Notice::State => newest_tick(notices.drop_last(), shown),
        }
    }
}

/// The viewer shows the last tick that came in: of all the events that it takes, the last tick
/// decides, and without one nothing changes.
pub proof fn law_last_tick_is_shown(msgs: Seq<ServerMsg>, shown: u64)
    ensures
        ({
            let after = newest_tick(notices_of(msgs), shown);
            ||| after == shown && forall|i: int|
                0 <= i < msgs.len() ==> !(#[trigger] msgs[i]).is_tick()
            ||| exists|i: int|
                {
                    &&& 0 <= i < msgs.len()
                    &&& (#[trigger] msgs[i]).body matches Some(ServerMsgBody::Tick(tick))
                        && tick.seq == after
                    &&& forall|j: int| i < j < msgs.len() ==> !(#[trigger] msgs[j]).is_tick()
                }
        }),
    decreases msgs.len(),
{
    if msgs.len() > 0 {
        let rest = msgs.drop_last();
        law_last_tick_is_shown(rest, shown);
        let before = notices_of(rest);
        if let Some(notice) = notice_of(msgs.last()) {
            assert(before.push(notice).drop_last() =~= before);
        }
        if msgs.last().is_tick() {
            assert(msgs[msgs.len() - 1].is_tick());
        } else if exists|i: int| 0 <= i < rest.len() && (#[trigger] rest[i]).is_tick() {
            let i = choose|i: int|
                {
                    &&& 0 <= i < rest.len()
                    &&& (#[trigger] rest[i]).body matches Some(ServerMsgBody::Tick(tick))
                        && tick.seq == newest_tick(before, shown)
                    &&& forall|j: int| i < j < rest.len() ==> !(#[trigger] rest[j]).is_tick()
                };
            assert(msgs[i] == rest[i]);
            assert forall|j: int| i < j < msgs.len() implies !(#[trigger] msgs[j]).is_tick() by {
                if j < rest.len() {
                    assert(msgs[j] == rest[j]);
                }
            }
        } else {
            assert forall|i: int| 0 <= i < msgs.len() implies !(#[trigger] msgs[i]).is_tick() by {
                if i < rest.len() {
                    assert(msgs[i] == rest[i]);
                }
            }
        }
    }
}

impl SimState {
    /// Before any tick.
    pub fn new() -> (state: SimState)
        ensures
            state.tick == 0,
    {
        SimState { tick: 0 }
    }

    /// Takes one event.
    pub fn observe(&mut self, msg: &ServerMsg) -> (notice: Option<Notice>)
        ensures
            notice == notice_of(*msg),
            final(self).tick == match notice {
                Some(Notice::Tick(seq)) => seq,
                _ => old(self).tick,
            },
    {
        match &msg.body {
            Some(ServerMsgBody::Tick(tick)) => {
                self.tick = tick.seq;
                Some(Notice::Tick(tick.seq))
            },
            Some(ServerMsgBody::State(_)) => Some(Notice::State),
            _ => None,
        }
    }

    /// Takes every event that is there.
    pub fn drain_inbox(&mut self, inbox: &mut Receiver<ServerMsg>) -> (notices: Vec<Notice>)
        ensures
            events_from(*final(inbox)) == events_from(*old(inbox)),
            event_receives(*old(inbox)).is_prefix_of(event_receives(*final(inbox))),
            exists|msgs: Seq<ServerMsg>|
                {
                    &&& #[trigger] collected(
                        received_since(event_receives(*old(inbox)), *final(inbox)),
                        msgs,
                    )
                    &&& notices@ == notices_of(msgs)
                },
            final(self).tick == newest_tick(notices@, old(self).tick),
    {
        let msgs: Vec<ServerMsg> = collect(inbox);
        let mut notices: Vec<Notice> = Vec::new();
        let mut i: usize = 0;
        while i < msgs.len()
            invariant
                i <= msgs.len(),
                notices@ == notices_of(msgs@.take(i as int)),
                self.tick == newest_tick(notices@, old(self).tick),
            decreases msgs.len() - i,
        {
            assert(msgs@.take(i + 1).drop_last() =~= msgs@.take(i as int));
            if let Some(notice) = self.observe(&msgs[i]) {
                let ghost before = notices@;
                notices.push(notice);
                assert(notices@.drop_last() =~= before);
            }
            i = i + 1;
        }
        assert(msgs@.take(msgs@.len() as int) =~= msgs@);
        notices
    }

    /// The text that shows the tick.
    pub fn tick_label(&self) -> (text: String)
        ensures
            text@ == "Tick: "@ + decimal(self.tick as nat),
    {
        let mut text: String = "Tick: ".to_string();
        text.append(to_decimal(self.tick).as_str());
        text
    }
}

/// Passing on shows the viewer everything: every event that the client received is sent to the
/// viewer, in order, once, and nothing else is; the last receive gave no event. Nothing is said to
/// the server, and no frame is waited for.
pub proof fn law_a_drain_shows_everything(
    pre: ViewerWorker,
    outcome: Result<(), ClientError>,
    post: ViewerWorker,
)
    requires
        pre.phase is Drain,
        pre.advanced(outcome, post),
        outcome is Ok,
    ensures
        ({
            let got = event_receives(pre.sim.ends.from_server);
            let got_after = event_receives(post.sim.ends.from_server);
            let sent = event_sends(pre.tx_app);
            let sent_after = event_sends(post.tx_app);
            &&& got_after.len() - got.len() == sent_after.len() - sent.len() + 1
            &&& sent_after.len() >= sent.len()
            &&& forall|i: int| 0 <= i < sent.len() ==> #[trigger] sent_after[i] == sent[i]
            &&& forall|i: int|
                got.len() <= i < got_after.len() - 1 ==> (#[trigger] got_after[i])
                    == Receipt::Event(sent_after[sent.len() + (i - got.len())].0)
                    && sent_after[sent.len() + (i - got.len())].1
            &&& !(got_after[got_after.len() - 1] is Event)
        }),
        request_sends(post.sim.ends.to_server) == request_sends(pre.sim.ends.to_server),
        signal_waits(post.rx_ready) == signal_waits(pre.rx_ready),
        post.phase == if pre.sim.step_participant {
            Phase::Step
        } else {
            Phase::Drain
        },
{
    let got = event_receives(pre.sim.ends.from_server);
    let got_after = event_receives(post.sim.ends.from_server);
    let sent = event_sends(pre.tx_app);
    let sent_after = event_sends(post.tx_app);
    let seen = pre.sim.ends.seen_by(post.sim.ends);
    let offered = offered_since(sent, post.tx_app);
    law_passing_on_loses_nothing(seen, offered, outcome);
    assert(seen.len() == got_after.len() - got.len());
    assert(offered.len() == sent_after.len() - sent.len());
    assert forall|i: int| 0 <= i < sent.len() implies #[trigger] sent_after[i] == sent[i] by {
        assert(sent_after.subrange(0, sent.len() as int)[i] == sent_after[i]);
    }
    assert forall|i: int| got.len() <= i < got_after.len() - 1 implies (#[trigger] got_after[i])
        == Receipt::Event(sent_after[sent.len() + (i - got.len())].0) && sent_after[sent.len() + (i
        - got.len())].1 by {
        assert(seen[i - got.len()] == got_after[i]);
        assert(offered[i - got.len()] == sent_after[sent.len() + (i - got.len())]);
    }
    assert(seen[seen.len() - 1] == got_after[got_after.len() - 1]);
}

/// A step of the viewer is one report of its client and one tick for the viewer: the tick that
/// came first after the report, and nothing else. Then a frame is waited for.
pub proof fn law_a_step_shows_its_tick(
    pre: ViewerWorker,
    outcome: Result<(), ClientError>,
    post: ViewerWorker,
)
    requires
        pre.phase is Step,
        pre.advanced(outcome, post),
        outcome is Ok,
    ensures
        ({
            let asked = request_sends(pre.sim.ends.to_server);
            let asked_after = request_sends(post.sim.ends.to_server);
            let got = event_receives(pre.sim.ends.from_server);
            let got_after = event_receives(post.sim.ends.from_server);
            let sent = event_sends(pre.tx_app);
            let sent_after = event_sends(post.tx_app);
            &&& asked_after.len() == asked.len() + 1
            &&& asked_after[asked.len() as int] == (
                ClientMsg {
                    client_id: pre.sim.client_id,
                    body: Some(ClientMsgBody::StepReady(StepReady {  })),
                },
                true,
            )
            &&& got_after.len() > got.len()
            &&& sent_after.len() == sent.len() + 1
            &&& forall|i: int| 0 <= i < sent.len() ==> #[trigger] sent_after[i] == sent[i]
            &&& sent_after[sent.len() as int].1
            &&& (sent_after[sent.len() as int].0.body matches Some(ServerMsgBody::Tick(_)))
            &&& got_after[got_after.len() - 1] == Receipt::Event(sent_after[sent.len() as int].0)
            &&& forall|i: int|
                got.len() <= i < got_after.len() - 1 ==> ((
                #[trigger] got_after[i]) matches Receipt::Event(event) && !(
                event.body matches Some(ServerMsgBody::Tick(_))))
        }),
        signal_waits(post.rx_ready) == signal_waits(pre.rx_ready),
        post.phase is Frame,
{
    let waited = choose|waited: Result<Tick, ClientError>| #[trigger]
        pre.presented(waited, outcome, post);
    law_a_step_is_one_report_and_one_wait(
        pre.sim.ends,
        pre.sim.message(ClientMsgBody::StepReady(StepReady {  })),
        waited,
        post.sim.ends,
    );
    law_a_client_speaks_under_its_id(pre.sim, ClientMsgBody::StepReady(StepReady {  }));
}

/// Waiting for a frame is one wait, and sends and receives nothing.
pub proof fn law_a_frame_is_one_wait(
    pre: ViewerWorker,
    outcome: Result<(), ClientError>,
    post: ViewerWorker,
)
    requires
        pre.phase is Frame,
        pre.advanced(outcome, post),
    ensures
        outcome is Ok,
        signal_waits(post.rx_ready).len() == signal_waits(pre.rx_ready).len() + 1,
        event_sends(post.tx_app) == event_sends(pre.tx_app),
        event_receives(post.sim.ends.from_server) == event_receives(pre.sim.ends.from_server),
        request_sends(post.sim.ends.to_server) == request_sends(pre.sim.ends.to_server),
        post.phase is Drain,
{
}

/// Every tick and every state among the events is noticed, in order, and nothing else is.
pub proof fn law_every_tick_and_state_is_noticed(msgs: Seq<ServerMsg>, msg: ServerMsg)
    ensures
        notices_of(Seq::<ServerMsg>::empty()).len() == 0,
        notices_of(msgs.push(msg)) == match msg.body {
            Some(ServerMsgBody::Tick(tick)) => notices_of(msgs).push(Notice::Tick(tick.seq)),
            Some(ServerMsgBody::State(_)) => notices_of(msgs).push(Notice::State),
            Some(ServerMsgBody::Registered(_)) => notices_of(msgs),
            Some(ServerMsgBody::ErrorMsg(_)) => notices_of(msgs),
            None => notices_of(msgs),
        },
{
    assert(msgs.push(msg).drop_last() =~= msgs);
}

/// The tick that is shown is that of the last tick notice, and stays if there is none.
pub proof fn law_a_tick_notice_changes_what_is_shown(notices: Seq<Notice>, seq: u64, shown: u64)
    ensures
        newest_tick(Seq::<Notice>::empty(), shown) == shown,
        newest_tick(notices.push(Notice::Tick(seq)), shown) == seq,
        newest_tick(notices.push(Notice::State), shown) == newest_tick(notices, shown),
{
    assert(notices.push(Notice::State).drop_last() =~= notices);
}

/// A launch goes by its mode's own address, connects the viewer once, then starts its worker, and
/// then shows it, each once. The client that steps a server whose viewer does not is started
/// before the viewer is shown, waits a millisecond between steps, and is waited for afterwards; a
/// server for remote clients is dropped last.
pub proof fn law_a_launch_goes_in_order(mode: VisualizerMode)
    ensures
        ({
            let steps = launch_steps(mode);
            let with_server = mode is RemoteNonBlockingWithServer
                || mode is RemoteBlockingWithServer;
            &&& forall|i: int|
                0 <= i < steps.len() ==> (match #[trigger] steps[i] {
                    LaunchStep::StartRemoteServer { addr } => with_server && i == 0
                        && Some(addr) == address_of(mode),
                    LaunchStep::StartLocalServer => mode is LocalBlockingWithServer && i == 0,
                    LaunchStep::ConnectRemote { participant, addr } => Some(addr) == address_of(
                        mode,
                    ) && (participant <==> mode is RemoteBlocking
                        || mode is RemoteBlockingWithServer),
                    LaunchStep::ConnectLocal { participant } => participant
                        && mode is LocalBlockingWithServer,
                    LaunchStep::ConnectStepper { addr, work_ms } => Some(addr) == address_of(mode)
                        && work_ms == 1 && mode is RemoteNonBlockingWithServer,
                    LaunchStep::JoinStepper => mode is RemoteNonBlockingWithServer,
                    LaunchStep::DropServer => with_server && i == steps.len() - 1,
                    LaunchStep::SpawnViewerWorker => true,
                    LaunchStep::RunViewer => true,
                })
            &&& exists|c: int, w: int, r: int|
                {
                    &&& 0 <= c < w < r < steps.len()
                    &&& (#[trigger] steps[c]) is ConnectLocal || steps[c] is ConnectRemote
                    &&& (#[trigger] steps[w]) is SpawnViewerWorker
                    &&& (#[trigger] steps[r]) is RunViewer
                    &&& c == if mode is RemoteNonBlocking || mode is RemoteBlocking {
                        0int
                    } else {
                        1int
                    }
                    &&& w == c + 1
                    &&& r == if mode is RemoteNonBlockingWithServer {
                        w + 2
                    } else {
                        w + 1
                    }
                    &&& mode is RemoteNonBlockingWithServer ==> steps[w + 1] is ConnectStepper
                        && steps[r + 1] is JoinStepper
                    &&& steps.len() == r + 1 + if mode is RemoteNonBlockingWithServer {
                        2int
                    } else if with_server {
                        1int
                    } else {
                        0int
                    }
                }
        }),
{
    let steps = launch_steps(mode);
    if mode is RemoteNonBlocking || mode is RemoteBlocking {
        assert(steps[0] is ConnectRemote && steps[1] is SpawnViewerWorker && steps[2] is RunViewer);
    } else if mode is RemoteNonBlockingWithServer {
        assert(steps[1] is ConnectRemote && steps[2] is SpawnViewerWorker && steps[4] is RunViewer);
        assert(steps[3] is ConnectStepper && steps[5] is JoinStepper);
    } else {
        assert(steps[2] is SpawnViewerWorker && steps[3] is RunViewer);
        assert(steps[1] is ConnectLocal || steps[1] is ConnectRemote);
    }
}

/// The address that a mode names.
pub open spec fn address_of(mode: VisualizerMode) -> Option<String> {
    match mode {
        VisualizerMode::RemoteNonBlocking { addr } => Some(addr),
        VisualizerMode::RemoteBlocking { addr } => Some(addr),
        VisualizerMode::RemoteNonBlockingWithServer { addr } => Some(addr),
        VisualizerMode::RemoteBlockingWithServer { addr } => Some(addr),
        VisualizerMode::LocalBlockingWithServer => None,
    }
}

/// A viewer that takes part in the barrier begins with a step, and any other one only passes events
/// on; a phase never changes the client or the channels of a worker.
pub proof fn law_a_worker_begins_by_its_role(
    worker: ViewerWorker,
    outcome: Result<(), ClientError>,
    after: ViewerWorker,
)
    requires
        worker.is_at_start(),
        worker.advanced(outcome, after),
    ensures
        worker.phase == if worker.sim.step_participant {
            Phase::Step
        } else {
            Phase::Drain
        },
        after.sim.client_id == worker.sim.client_id,
        after.sim.step_participant == worker.sim.step_participant,
        events_into(after.tx_app) == events_into(worker.tx_app),
        signals_from(after.rx_ready) == signals_from(worker.rx_ready),
        !worker.sim.step_participant ==> request_sends(after.sim.ends.to_server) == request_sends(
            worker.sim.ends.to_server,
        ) && signal_waits(after.rx_ready) == signal_waits(worker.rx_ready),
{
}

/// A step of the viewer fails with the error of its client, and then the viewer is shown nothing;
/// or because the viewer has gone, and then the tick is all that it was sent.
pub proof fn law_a_step_that_fails_says_why(
    pre: ViewerWorker,
    error: ClientError,
    post: ViewerWorker,
)
    requires
        pre.phase is Step,
        pre.advanced(Err(error), post),
    ensures
        signal_waits(post.rx_ready) == signal_waits(pre.rx_ready),
        ({
            let asked = request_sends(pre.sim.ends.to_server);
            let asked_after = request_sends(post.sim.ends.to_server);
            let sent = event_sends(pre.tx_app);
            let sent_after = event_sends(post.tx_app);
            &&& asked_after.len() == asked.len() + 1
            &&& sent_after == sent || {
                &&& error is Rejected
                &&& sent_after.len() == sent.len() + 1
                &&& (sent_after[sent.len() as int].0.body matches Some(ServerMsgBody::Tick(_)))
                &&& !sent_after[sent.len() as int].1
            }
            &&& sent_after == sent && error is Rejected ==> !asked_after[asked.len() as int].1
        }),
{
    let waited = choose|waited: Result<Tick, ClientError>| #[trigger]
        pre.presented(waited, Err(error), post);
    law_a_step_is_one_report_and_one_wait(
        pre.sim.ends,
        pre.sim.message(ClientMsgBody::StepReady(StepReady {  })),
        waited,
        post.sim.ends,
    );
    if waited is Ok {
        assert(event_sends(post.tx_app).len() == event_sends(pre.tx_app).len() + 1);
    }
}

} // verus!
