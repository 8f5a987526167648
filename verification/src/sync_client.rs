//! A blocking client of a coordinator, in the same process or behind gRPC.
//!
//! The client talks to a worker over two channels. `LocalWorker` is the worker of a client in the
//! process of its server; `RemoteWorker` is that of a client of a gRPC server.

use crate::channel::{
    bounded_events, bounded_requests, clone_event_receiver, clone_event_sender,
    clone_request_receiver, event_receives, event_sends, events_from, events_into, recv_event,
    recv_request, request_receives, request_sends, requests_from, requests_into, send_event,
    Receipt,
};
use crate::client::StreamItem;
use crate::coordinator::Reply;
use crate::interface::{
    ClientMsg, ClientMsgBody, RegisterRequest, RegisterResponse, ServerMsg, ServerMsgBody,
    StepReady, Tick,
};
use crate::link::{
    await_registration, forward_through_tick, forwarded_to_tick,
    law_a_wait_gives_the_first_registration, offered_since, registration_wait, tick_wait,
    ClientError, Ends,
};
use crate::text::{endpoint, endpoint_of};
use crossbeam_channel::{Receiver, Sender};
use vstd::prelude::*;

verus! {

/// How many messages may wait in each direction between a client and its worker.
pub const WORKER_BACKLOG: usize = 1024;

/// Transport-agnostic, synchronous client handle.
pub struct SyncSimClient {
    /// True if the client takes part in the step barrier.
    pub contributing: bool,
    /// The id that the server gave it, or zero before that.
    pub id: u64,
    pub ends: Ends,
}

/// True of the message that asks for an id: the sender does not have one yet.
pub open spec fn asks_for_id(msg: ClientMsg, contributing: bool) -> bool {
    &&& msg.client_id == 0
    &&& msg.body matches Some(ClientMsgBody::Register(request))
        && request.client_name@ == Seq::<char>::empty() && request.step_participant == contributing
}

/// `after` and `outcome` come from `before` by asking the server for an id and then, if the
/// request is accepted, waiting for the answer.
pub open spec fn registers(
    before: Ends,
    contributing: bool,
    outcome: Result<u64, ClientError>,
    after: Ends,
) -> bool {
    let (msg, accepted) = request_sends(after.to_server).last();
    &&& asks_for_id(msg, contributing)
    &&& requests_into(after.to_server) == requests_into(before.to_server)
    &&& request_sends(after.to_server) == request_sends(before.to_server).push((msg, accepted))
    &&& if accepted {
        &&& events_from(after.from_server) == events_from(before.from_server)
        &&& event_receives(before.from_server).is_prefix_of(event_receives(after.from_server))
        &&& registration_wait(before.seen_by(after), outcome)
    } else {
        &&& after.from_server == before.from_server
        &&& outcome == Err::<u64, ClientError>(ClientError::Rejected)
    }
}

impl SyncSimClient {
    /// The message of this client with the given body.
    pub open spec fn message(self, body: ClientMsgBody) -> ClientMsg {
        ClientMsg { client_id: self.id, body: Some(body) }
    }

    /// True if `other` has the same role and id.
    pub open spec fn same_client(self, other: SyncSimClient) -> bool {
        self.contributing == other.contributing && self.id == other.id
    }

    /// A client that talks over the given ends, once the server has given it an id.
    pub fn try_new(
        contributing: bool,
        tx_to_worker: Sender<ClientMsg>,
        rx_from_worker: Receiver<ServerMsg>,
    ) -> (outcome: Result<SyncSimClient, ClientError>)
        ensures
            ({
                let ends = Ends { to_server: tx_to_worker, from_server: rx_from_worker };
                match outcome {
                    Ok(client) => client.contributing == contributing && registers(
                        ends,
                        contributing,
                        Ok(client.id),
                        client.ends,
                    ),
                    Err(error) => exists|after: Ends| #[trigger]
                        registers(ends, contributing, Err(error), after),
                }
            }),
    {
        let ends = Ends { to_server: tx_to_worker, from_server: rx_from_worker };
        let mut client = SyncSimClient { contributing, id: 0, ends };
        let outcome: Result<u64, ClientError> = client.register(contributing);
        assert(registers(ends, contributing, outcome, client.ends));
        match outcome {
            Ok(id) => {
                client.id = id;
                Ok(client)
            },
            Err(error) => Err(error),
        }
    }

    /// Asks the server for an id, and waits for the answer. Other events are dropped.
    fn register(&mut self, contributing: bool) -> (outcome: Result<u64, ClientError>)
        ensures
            registers(old(self).ends, contributing, outcome, final(self).ends),
            final(self).contributing == contributing,
            final(self).id == old(self).id,
    {
        match self.send_register(contributing) {
            Err(error) => Err(error),
            Ok(_) => self.wait_until_registered(),
        }
    }

    fn send_register(&mut self, contributing: bool) -> (outcome: Result<(), ClientError>)
        ensures
            ({
                let msg = request_sends(final(self).ends.to_server).last().0;
                asks_for_id(msg, contributing) && old(self).ends.sent(
                    msg,
                    outcome is Ok,
                    final(self).ends,
                )
            }),
            outcome is Err ==> outcome == Err::<(), ClientError>(ClientError::Rejected),
            final(self).contributing == contributing,
            final(self).id == old(self).id,
    {
        self.contributing = contributing;
        let request = RegisterRequest {
            client_name: String::new(),
            step_participant: contributing,
        };
        self.send(ClientMsg { client_id: 0, body: Some(ClientMsgBody::Register(request)) })
    }

    /// Waits for the id that the server gives. Other events are dropped.
    fn wait_until_registered(&mut self) -> (outcome: Result<u64, ClientError>)
        ensures
            old(self).same_client(*final(self)),
            old(self).ends.only_received(final(self).ends),
            registration_wait(old(self).ends.seen_by(final(self).ends), outcome),
    {
        await_registration(&mut self.ends.from_server)
    }

    pub fn id(&self) -> (id: u64)
        ensures
            id == self.id,
    {
        self.id
    }

    /// True if the client takes part in the step barrier.
    pub fn contributing(&self) -> (yes: bool)
        ensures
            yes == self.contributing,
    {
        self.contributing
    }

    /// Sends a message to the simulator, waiting while the channel is full.
    pub fn send(&mut self, msg: ClientMsg) -> (outcome: Result<(), ClientError>)
        ensures
            old(self).same_client(*final(self)),
            old(self).ends.sent(msg, outcome is Ok, final(self).ends),
            outcome is Err ==> outcome == Err::<(), ClientError>(ClientError::Rejected),
    {
        self.ends.send(msg)
    }

    /// Waits for the next event.
    pub fn recv(&mut self) -> (outcome: Result<ServerMsg, ClientError>)
        ensures
            old(self).same_client(*final(self)),
            old(self).ends.only_received(final(self).ends),
            match outcome {
                Ok(msg) => old(self).ends.seen_by(final(self).ends) == seq![Receipt::Event(msg)],
                Err(error) => error is Closed && old(self).ends.seen_by(final(self).ends) == seq![
                    Receipt::Closed,
                ],
            },
    {
        self.ends.recv()
    }

    /// The next event, if one is there.
    pub fn try_recv(&mut self) -> (got: Option<ServerMsg>)
        ensures
            old(self).same_client(*final(self)),
            old(self).ends.only_received(final(self).ends),
            match got {
                Some(msg) => old(self).ends.seen_by(final(self).ends) == seq![Receipt::Event(msg)],
                None => old(self).ends.seen_nothing(final(self).ends),
            },
    {
        self.ends.try_recv()
    }

    /// Reports that the client is ready for the next step.
    pub fn step_ready(&mut self) -> (outcome: Result<(), ClientError>)
        ensures
            old(self).same_client(*final(self)),
            old(self).ends.sent(
                old(self).message(ClientMsgBody::StepReady(StepReady {  })),
                outcome is Ok,
                final(self).ends,
            ),
            outcome is Err ==> outcome == Err::<(), ClientError>(ClientError::Rejected),
    {
        let id: u64 = self.id;
        self.send(
            ClientMsg { client_id: id, body: Some(ClientMsgBody::StepReady(StepReady {  })) },
        )
    }

    /// Passes events on to `tx_app`, waiting for them, up to and including the first tick.
    pub fn forward_until_tick(&mut self, tx_app: &mut Sender<ServerMsg>) -> (outcome: Result<
        (),
        ClientError,
    >)
        ensures
            old(self).same_client(*final(self)),
            old(self).ends.only_received(final(self).ends),
            events_into(*final(tx_app)) == events_into(*old(tx_app)),
            event_sends(*old(tx_app)).is_prefix_of(event_sends(*final(tx_app))),
            forwarded_to_tick(
                old(self).ends.seen_by(final(self).ends),
                offered_since(event_sends(*old(tx_app)), *final(tx_app)),
                outcome,
            ),
    {
        forward_through_tick(&mut self.ends.from_server, tx_app)
    }

    /// Waits for the next tick. Other events are dropped.
    pub fn wait_for_tick(&mut self) -> (outcome: Result<Tick, ClientError>)
        ensures
            old(self).same_client(*final(self)),
            old(self).ends.only_received(final(self).ends),
            tick_wait(old(self).ends.seen_by(final(self).ends), outcome),
    {
        self.ends.wait_for_tick()
    }

    /// Reports that the client is ready, and waits for the tick. A client that only steps does
    /// this over and over.
    pub fn step(&mut self) -> (outcome: Result<Tick, ClientError>)
        ensures
            old(self).same_client(*final(self)),
            old(self).ends.sent_and_waited(
                old(self).message(ClientMsgBody::StepReady(StepReady {  })),
                outcome,
                final(self).ends,
            ),
    {
        match self.step_ready() {
            Err(error) => Err(error),
            Ok(_) => self.wait_for_tick(),
        }
    }

    /// The text of an error of this client.
    pub fn describe(error: ClientError) -> (text: String)
        ensures
            text@ == if error is Rejected {
                "sync_client send error: "@ + error.cause_text()
            } else {
                "sync_client recv error: "@ + error.cause_text()
            },
    {
        let mut text: String = match error {
            ClientError::Rejected => "sync_client send error: ".to_string(),
            _ => "sync_client recv error: ".to_string(),
        };
        text.append(error.cause().as_str());
        text
    }
}

/// The ends of a client, and what its worker holds of the same channels.
pub open spec fn wired(
    ends: Ends,
    requests: Receiver<ClientMsg>,
    events: Sender<ServerMsg>,
) -> bool {
    &&& requests_into(ends.to_server) == requests_from(requests)
    &&& requests_from(requests).capacity == Some(WORKER_BACKLOG as nat)
    &&& events_into(events) == events_from(ends.from_server)
    &&& events_into(events).capacity == Some(WORKER_BACKLOG as nat)
    &&& request_sends(ends.to_server).len() == 0
    &&& request_receives(requests).len() == 0
    &&& event_sends(events).len() == 0
    &&& event_receives(ends.from_server).len() == 0
}

/// A pair of channels between a client and its worker.
fn wire() -> (parts: (Ends, Receiver<ClientMsg>, Sender<ServerMsg>))
    ensures
        wired(parts.0, parts.1, parts.2),
{
    let (to_server, requests) = bounded_requests(WORKER_BACKLOG);
    let (events, from_server) = bounded_events(WORKER_BACKLOG, None);
    (Ends { to_server, from_server }, requests, events)
}

/// Prepares a client of the gRPC server at `addr`: the ends to give to `SyncSimClient::try_new`,
/// and the worker that connects them.
///
/// - `"127.0.0.1:50051"` becomes `"http://127.0.0.1:50051"`
/// - `"http://127.0.0.1:50051"` is used as it is
pub fn connect_remote(addr: &str) -> (parts: (Ends, RemoteWorker))
    ensures
        parts.1.endpoint@ == endpoint_of(addr@),
        wired(parts.0, parts.1.requests, parts.1.events),
{
    let (ends, requests, events) = wire();
    (ends, RemoteWorker { endpoint: endpoint(addr), requests, events })
}

/// Prepares a client of a server in this process: the ends to give to `SyncSimClient::try_new`,
/// and the worker that connects them.
pub fn connect_local() -> (parts: (Ends, LocalWorker))
    ensures
        wired(parts.0, parts.1.requests, parts.1.events),
        parts.1.inbox is None,
{
    let (ends, requests, events) = wire();
    (ends, LocalWorker { requests, events, inbox: None })
}

/// The worker of a client of a gRPC server.
pub struct RemoteWorker {
    /// The URL to connect to.
    pub endpoint: String,
    pub requests: Receiver<ClientMsg>,
    pub events: Sender<ServerMsg>,
}

/// `after` is `before` once an error message with the text `text` has been offered.
pub open spec fn error_told(
    before: Sender<ServerMsg>,
    text: Seq<char>,
    after: Sender<ServerMsg>,
) -> bool {
    let (msg, accepted) = event_sends(after).last();
    &&& events_into(after) == events_into(before)
    &&& event_sends(after) == event_sends(before).push((msg, accepted))
    &&& msg.is_error(text)
}

fn tell_error(events: &mut Sender<ServerMsg>, prefix: &str, cause: &str)
    ensures
        error_told(*old(events), prefix@ + cause@, *final(events)),
{
    let mut text: String = prefix.to_string();
    text.append(cause);
    let _ = send_event(events, ServerMsg::error(text));
}

impl RemoteWorker {
    /// The connection could not be made: the client is told why, and the worker is done.
    pub fn connect_failed(&mut self, cause: &str)
        ensures
            error_told(old(self).events, "connect error: "@ + cause@, final(self).events),
            final(self).endpoint == old(self).endpoint,
            final(self).requests == old(self).requests,
    {
        tell_error(&mut self.events, "connect error: ", cause);
    }

    /// The stream could not be opened: the client is told why, and the worker is done.
    pub fn open_failed(&mut self, cause: &str)
        ensures
            error_told(old(self).events, "open stream error: "@ + cause@, final(self).events),
            final(self).endpoint == old(self).endpoint,
            final(self).requests == old(self).requests,
    {
        tell_error(&mut self.events, "open stream error: ", cause);
    }

    /// The two directions of the worker, once the stream is open. The worker keeps its own handles,
    /// so the client's channels stay open after the stream has ended.
    pub fn opened(&self) -> (pumps: (OutboundPump, InboundPump))
        ensures
            requests_from(pumps.0.requests) == requests_from(self.requests),
            request_receives(pumps.0.requests).len() == 0,
            events_into(pumps.1.events) == events_into(self.events),
            event_sends(pumps.1.events).len() == 0,
    {
        (
            OutboundPump { requests: clone_request_receiver(&self.requests) },
            InboundPump { events: clone_event_sender(&self.events) },
        )
    }
}

/// Carries the client's requests into the stream.
pub struct OutboundPump {
    pub requests: Receiver<ClientMsg>,
}

impl OutboundPump {
    /// Waits for the next request for the stream. None means that the client is gone.
    pub fn next(&mut self) -> (got: Option<ClientMsg>)
        ensures
            requests_from(final(self).requests) == requests_from(old(self).requests),
            request_receives(final(self).requests) == request_receives(old(self).requests).push(
                got,
            ),
    {
        recv_request(&mut self.requests)
    }
}

/// Carries what comes out of the stream to the client.
pub struct InboundPump {
    pub events: Sender<ServerMsg>,
}

impl InboundPump {
    /// Hands an event on to the client. The stream is done when it fails or ends.
    pub fn on_item(&mut self, item: StreamItem<ServerMsg>) -> (go_on: bool)
        ensures
            go_on == item is Message,
            events_into(final(self).events) == events_into(old(self).events),
            match item {
                StreamItem::Message(msg) => {
                    let accepted = event_sends(final(self).events).last().1;
                    event_sends(final(self).events) == event_sends(old(self).events).push(
                        (msg, accepted),
                    )
                },
                _ => *final(self) == *old(self),
            },
    {
        match item {
            StreamItem::Message(msg) => {
                let _ = send_event(&mut self.events, msg);
                true
            },
            _ => false,
        }
    }
}

/// The worker of a client in the process of its server.
pub struct LocalWorker {
    pub requests: Receiver<ClientMsg>,
    pub events: Sender<ServerMsg>,
    /// Where the coordinator sends the client's events, once the client is registered.
    pub inbox: Option<Receiver<ServerMsg>>,
}

impl LocalWorker {
    /// Waits for the next request of the client. None means that the client is gone.
    pub fn next(&mut self) -> (got: Option<ClientMsg>)
        ensures
            requests_from(final(self).requests) == requests_from(old(self).requests),
            request_receives(final(self).requests) == request_receives(old(self).requests).push(
                got,
            ),
            final(self).events == old(self).events,
            final(self).inbox == old(self).inbox,
    {
        recv_request(&mut self.requests)
    }

    /// Takes the coordinator's reply to a request of the client. After a registration the client
    /// is told its id, and the relay that the result holds brings it the events that follow.
    pub fn on_reply(&mut self, reply: Reply) -> (relay: Option<Relay>)
        ensures
            match reply {
                Reply::Registered(id, inbox) => {
                    &&& old(self).answered(id, *final(self))
                    &&& final(self).requests == old(self).requests
                    &&& final(self).inbox == Some(inbox)
                    &&& relay matches Some(relay) && relay.between(inbox, old(self).events)
                },
                _ => *final(self) == *old(self) && relay is None,
            },
    {
        match reply {
            Reply::Registered(id, inbox) => {
                let _ = send_event(&mut self.events, ServerMsg::registered(id));
                let relay = Relay {
                    from: clone_event_receiver(&inbox),
                    to: clone_event_sender(&self.events),
                };
                self.inbox = Some(inbox);
                Some(relay)
            },
            _ => None,
        }
    }

    /// `post` is this worker once the client has been told its id.
    pub open spec fn answered(self, id: u64, post: LocalWorker) -> bool {
        let accepted = event_sends(post.events).last().1;
        &&& events_into(post.events) == events_into(self.events)
        &&& event_sends(post.events) == event_sends(self.events).push(
            (ServerMsg::of_registration(id), accepted),
        )
    }
}

/// Carries events from the coordinator to a client in its process.
pub struct Relay {
    pub from: Receiver<ServerMsg>,
    pub to: Sender<ServerMsg>,
}

impl Relay {
    /// True of a new relay from the channel of `inbox` to that of `events`.
    pub open spec fn between(self, inbox: Receiver<ServerMsg>, events: Sender<ServerMsg>) -> bool {
        &&& events_from(self.from) == events_from(inbox)
        &&& events_into(self.to) == events_into(events)
        &&& event_receives(self.from).len() == 0
        &&& event_sends(self.to).len() == 0
    }

    /// `post` and `go_on` come from this relay by carrying one event.
    pub open spec fn relayed(self, go_on: bool, post: Relay) -> bool {
        &&& events_from(post.from) == events_from(self.from)
        &&& events_into(post.to) == events_into(self.to)
        &&& event_receives(post.from) == event_receives(self.from).push(
            event_receives(post.from).last(),
        )
        &&& match event_receives(post.from).last() {
            Receipt::Event(msg) => {
                let accepted = event_sends(post.to).last().1;
                go_on && event_sends(post.to) == event_sends(self.to).push((msg, accepted))
            },
            Receipt::Closed => !go_on && post.to == self.to,
            Receipt::Nothing => false,
        }
    }

    /// Carries one event, waiting for it. The result is false once the coordinator has dropped
    /// the client.
    pub fn turn(&mut self) -> (go_on: bool)
        ensures
            old(self).relayed(go_on, *final(self)),
    {
        let got: Option<ServerMsg> = recv_event(&mut self.from);
        match got {
            Some(msg) => {
                let _ = send_event(&mut self.to, msg);
                true
            },
            None => false,
        }
    }
}

/// One turn of a relay.
pub struct RelayStep {
    pub pre: Relay,
    pub go_on: bool,
    pub post: Relay,
}

/// `steps` follow one another.
pub open spec fn is_relay_run(steps: Seq<RelayStep>) -> bool {
    &&& forall|i: int|
        0 <= i < steps.len() ==> (#[trigger] steps[i]).pre.relayed(steps[i].go_on, steps[i].post)
    &&& forall|i: int, j: int|
        0 <= i < steps.len() && j == i + 1 && j < steps.len() ==> (#[trigger] steps[j]).pre == (
        #[trigger] steps[i]).post && steps[i].go_on
}

/// A relay carries every event that comes, as it is and in order, and nothing else, until the
/// coordinator has dropped the client.
pub proof fn law_a_relay_carries_everything(steps: Seq<RelayStep>, n: int)
    requires
        is_relay_run(steps),
        0 <= n < steps.len(),
    ensures
        ({
            let got = event_receives(steps[0].pre.from);
            let got_now = event_receives(steps[n].pre.from);
            let sent = event_sends(steps[0].pre.to);
            let sent_now = event_sends(steps[n].pre.to);
            &&& got_now.len() == got.len() + n
            &&& sent_now.len() == sent.len() + n
            &&& forall|i: int|
                0 <= i < n ==> #[trigger] got_now[got.len() + i] == Receipt::Event(
                    sent_now[sent.len() + i].0,
                )
            &&& steps[n].go_on <==> event_receives(
                steps[n].post.from,
            )[got_now.len() as int] is Event
            &&& !steps[n].go_on ==> event_sends(steps[n].post.to) == sent_now
        }),
    decreases n,
{
    assert(steps[n].pre.relayed(steps[n].go_on, steps[n].post));
    if n > 0 {
        let m = n - 1;
        law_a_relay_carries_everything(steps, m);
        assert(steps[m].pre.relayed(steps[m].go_on, steps[m].post));
        assert(steps[n].pre == steps[m].post && steps[m].go_on);
        let got = event_receives(steps[0].pre.from);
        let sent = event_sends(steps[0].pre.to);
        let got_now = event_receives(steps[n].pre.from);
        let sent_now = event_sends(steps[n].pre.to);
        assert forall|i: int| 0 <= i < n implies #[trigger] got_now[got.len() + i]
            == Receipt::Event(sent_now[sent.len() + i].0) by {
            if i < m {
                assert(event_receives(steps[m].pre.from)[got.len() + i] == got_now[got.len() + i]);
                assert(event_sends(steps[m].pre.to)[sent.len() + i] == sent_now[sent.len() + i]);
            }
        }
    }
}

/// A client registers by asking once, without an id and without a name, in the role that it was
/// given, and has the id of the first registration that comes; it fails at once if it cannot ask.
pub proof fn law_registering_asks_once(
    before: Ends,
    contributing: bool,
    outcome: Result<u64, ClientError>,
    after: Ends,
)
    requires
        registers(before, contributing, outcome, after),
    ensures
        ({
            let sent = request_sends(before.to_server);
            let sent_after = request_sends(after.to_server);
            let (msg, accepted) = sent_after[sent.len() as int];
            let got = event_receives(after.from_server);
            &&& sent_after.len() == sent.len() + 1
            &&& msg.client_id == 0
            &&& msg.body matches Some(ClientMsgBody::Register(request))
                && request.client_name@.len() == 0 && request.step_participant == contributing
            &&& outcome == Err::<u64, ClientError>(ClientError::Rejected) <==> !accepted
            &&& !accepted ==> got == event_receives(before.from_server)
            &&& outcome matches Ok(client_id) ==> got.len() > event_receives(
                before.from_server,
            ).len() && got[got.len() - 1] == Receipt::Event(
                ServerMsg {
                    body: Some(ServerMsgBody::Registered(RegisterResponse { client_id })),
                },
            )
            &&& forall|i: int|
                event_receives(before.from_server).len() <= i < got.len() - 1 ==> ((
                #[trigger] got[i]) matches Receipt::Event(event) && !(event.body matches Some(
                    ServerMsgBody::Registered(_),
                )))
        }),
{
    let start = event_receives(before.from_server);
    let got = event_receives(after.from_server);
    if request_sends(after.to_server).last().1 {
        let seen = before.seen_by(after);
        law_a_wait_gives_the_first_registration(seen, outcome);
        assert(seen.len() == got.len() - start.len());
        assert forall|i: int| start.len() <= i < got.len() - 1 implies ((
        #[trigger] got[i]) matches Receipt::Event(event) && !(event.body matches Some(
            ServerMsgBody::Registered(_),
        ))) by {
            assert(seen[i - start.len()] == got[i]);
        }
        if outcome is Ok {
            assert(seen[seen.len() - 1] == got[got.len() - 1]);
        }
    }
}

/// A client and its worker hold the two ends of the same two channels, which hold 1024 messages
/// each and over which nothing has passed.
pub proof fn law_a_client_is_wired_to_its_worker(
    ends: Ends,
    requests: Receiver<ClientMsg>,
    events: Sender<ServerMsg>,
)
    requires
        wired(ends, requests, events),
    ensures
        requests_into(ends.to_server) == requests_from(requests),
        events_into(events) == events_from(ends.from_server),
        requests_from(requests).capacity == Some(1024nat),
        events_into(events).capacity == Some(1024nat),
        request_sends(ends.to_server).len() == 0,
        request_receives(requests).len() == 0,
        event_sends(events).len() == 0,
        event_receives(ends.from_server).len() == 0,
{
}

/// A worker tells its client its id, and an error as a message with the whole text; each is one
/// event after those before it.
pub proof fn law_a_worker_tells_its_client(
    before: Sender<ServerMsg>,
    text: Seq<char>,
    after: Sender<ServerMsg>,
    worker: LocalWorker,
    client_id: u64,
    worker_after: LocalWorker,
)
    requires
        error_told(before, text, after),
        worker.answered(client_id, worker_after),
    ensures
        events_into(after) == events_into(before),
        event_sends(after).len() == event_sends(before).len() + 1,
        event_sends(after)[event_sends(before).len() as int].0.body matches Some(
            ServerMsgBody::ErrorMsg(error),
        ) && error.message@ == text,
        events_into(worker_after.events) == events_into(worker.events),
        event_sends(worker_after.events).len() == event_sends(worker.events).len() + 1,
        event_sends(worker_after.events)[event_sends(worker.events).len() as int].0 == (ServerMsg {
            body: Some(ServerMsgBody::Registered(RegisterResponse { client_id })),
        }),
{
}

/// A client of a coordinator speaks under its own id, and says what it was given to say.
pub proof fn law_a_sync_client_speaks_under_its_id(client: SyncSimClient, body: ClientMsgBody)
    ensures
        client.message(body).client_id == client.id,
        client.message(body).body == Some(body),
{
}

/// A client stays in its role and keeps its id, whatever it does; a new relay leads from the
/// channel of the client's events to the client, and has carried nothing.
pub proof fn law_a_relay_leads_to_its_client(
    client: SyncSimClient,
    after: SyncSimClient,
    relay: Relay,
    inbox: Receiver<ServerMsg>,
    events: Sender<ServerMsg>,
)
    requires
        client.same_client(after),
        relay.between(inbox, events),
    ensures
        after.id == client.id,
        after.contributing == client.contributing,
        events_from(relay.from) == events_from(inbox),
        events_into(relay.to) == events_into(events),
        event_receives(relay.from).len() == 0,
        event_sends(relay.to).len() == 0,
{
}

} // verus!
