//! Clients of the server, in the same process or behind gRPC.

use crate::channel::{
    clone_event_receiver, clone_request_sender, event_receives, event_sends, events_from,
    events_into, recv_request, request_receives, request_sends, requests_from, requests_into,
    send_event, unbounded_events, unbounded_requests, Receipt,
};
use crate::interface::{
    ClientMsg, ClientMsgBody, RegisterRequest, ServerMsg, Shutdown, Simulation, StepReady, Tick,
};
use crate::link::{
    forward_available, forwarded, offered_since, tick_wait, ClientError, Ends, Incoming,
};
use crate::registry::clients_in;
use crate::server::Server;
use crate::text::{decimal, endpoint, endpoint_of, to_decimal};
use crossbeam_channel::{Receiver, Sender};
use vstd::prelude::*;

verus! {

/// A registered client.
pub struct Client {
    /// True if the client takes part in the step barrier.
    pub step_participant: bool,
    pub client_id: u64,
    pub ends: Ends,
}

/// `after` is the server `before` with one more client, which holds `ends`.
pub open spec fn joined<S: Simulation>(
    before: Server<S>,
    local: bool,
    step_participant: bool,
    client_id: u64,
    ends: Ends,
    after: Server<S>,
) -> bool {
    &&& before.registers(
        local,
        step_participant,
        client_id,
        ends.to_server,
        ends.from_server,
        after,
    )
    &&& before.well_formed() && 1 <= before.next_client_id < u64::MAX ==> after.well_formed()
}

impl Client {
    /// True if `other` is a handle on the same registration.
    pub open spec fn same_client(self, other: Client) -> bool {
        &&& self.step_participant == other.step_participant
        &&& self.client_id == other.client_id
        &&& requests_into(self.ends.to_server) == requests_into(other.ends.to_server)
        &&& events_from(self.ends.from_server) == events_from(other.ends.from_server)
    }

    /// The message of this client with the given body.
    pub open spec fn message(self, body: ClientMsgBody) -> ClientMsg {
        ClientMsg { client_id: self.client_id, body: Some(body) }
    }

    /// Registers a client of a server in this process.
    pub fn new_local<S: Simulation>(step_participant: bool, server: &mut Server<S>) -> (client:
        Result<Client, ClientError>)
        ensures
            client matches Ok(client) && client.step_participant == step_participant && joined(
                *old(server),
                true,
                step_participant,
                client.client_id,
                client.ends,
                *final(server),
            ),
    {
        let (client_id, to_server, from_server) = server.register_client::<true>(step_participant);
        Ok(Client { step_participant, client_id, ends: Ends { to_server, from_server } })
    }

    /// Prepares a client of the gRPC server at `address`. The client exists once the server has
    /// given it an id: see `RemoteSession::registered`.
    ///
    /// - `"127.0.0.1:50051"` becomes `"http://127.0.0.1:50051"`
    /// - `"http://127.0.0.1:50051"` is used as it is
    pub fn new_remote(step_participant: bool, address: String) -> (session: RemoteSession)
        ensures
            session.prepared(step_participant, address@),
    {
        RemoteSession::prepare(step_participant, address.as_str())
    }

    /// Reports that the client is ready, and waits for the next tick. Other events are dropped.
    pub fn step_ready(&mut self) -> (outcome: Result<Tick, ClientError>)
        ensures
            old(self).same_client(*final(self)),
            old(self).ends.sent_and_waited(
                old(self).message(ClientMsgBody::StepReady(StepReady {  })),
                outcome,
                final(self).ends,
            ),
    {
        match self.send(ClientMsgBody::StepReady(StepReady {  })) {
            Err(error) => Err(error),
            Ok(_) => self.ends.wait_for_tick(),
        }
    }

    /// Waits for the next tick. Other events are dropped.
    pub fn wait_for_tick(&mut self) -> (outcome: Result<Tick, ClientError>)
        ensures
            old(self).same_client(*final(self)),
            old(self).ends.only_received(final(self).ends),
            tick_wait(old(self).ends.seen_by(final(self).ends), outcome),
    {
        self.ends.wait_for_tick()
    }

    /// Sends a message to the server.
    pub fn send(&mut self, body: ClientMsgBody) -> (outcome: Result<(), ClientError>)
        ensures
            old(self).same_client(*final(self)),
            old(self).ends.sent(old(self).message(body), outcome is Ok, final(self).ends),
            outcome is Err ==> outcome == Err::<(), ClientError>(ClientError::Rejected),
    {
        let msg = ClientMsg { client_id: self.client_id, body: Some(body) };
        self.ends.send(msg)
    }

    /// Asks the server to stop.
    pub fn shutdown_server(&mut self) -> (outcome: Result<(), ClientError>)
        ensures
            old(self).same_client(*final(self)),
            old(self).ends.sent(
                old(self).message(ClientMsgBody::Shutdown(Shutdown {  })),
                outcome is Ok,
                final(self).ends,
            ),
            outcome is Err ==> outcome == Err::<(), ClientError>(ClientError::Rejected),
    {
        self.send(ClientMsgBody::Shutdown(Shutdown {  }))
    }

    /// Waits for the next event.
    pub fn recv(&mut self) -> (outcome: Result<ServerMsg, ClientError>)
        ensures
            old(self).same_client(*final(self)),
            old(self).ends.only_received(final(self).ends),
            match outcome {
                Ok(msg) => old(self).ends.seen_by(final(self).ends) == seq![Receipt::Event(msg)],
                Err(error) => error is Closed && old(self).ends.seen_by(final(self).ends) == seq![
                    Receipt::Closed,
                ],
            },
    {
        self.ends.recv()
    }

    /// The next event, if one is there.
    pub fn try_recv(&mut self) -> (got: Option<ServerMsg>)
        ensures
            old(self).same_client(*final(self)),
            old(self).ends.only_received(final(self).ends),
            match got {
                Some(msg) => old(self).ends.seen_by(final(self).ends) == seq![Receipt::Event(msg)],
                None => old(self).ends.seen_nothing(final(self).ends),
            },
    {
        self.ends.try_recv()
    }

    /// The events that come in, one at a time, waiting for each. Ends when the server disconnects.
    pub fn iter(&mut self) -> (events: Incoming<'_>)
        ensures
            events.wait,
            *events.rx == old(self).ends.from_server,
            *final(events.rx) == final(self).ends.from_server,
            final(self).ends.to_server == old(self).ends.to_server,
            final(self).step_participant == old(self).step_participant,
            final(self).client_id == old(self).client_id,
    {
        Incoming { rx: &mut self.ends.from_server, wait: true }
    }

    /// The events that are there, one at a time, without waiting.
    pub fn try_iter(&mut self) -> (events: Incoming<'_>)
        ensures
            !events.wait,
            *events.rx == old(self).ends.from_server,
            *final(events.rx) == final(self).ends.from_server,
            final(self).ends.to_server == old(self).ends.to_server,
            final(self).step_participant == old(self).step_participant,
            final(self).client_id == old(self).client_id,
    {
        Incoming { rx: &mut self.ends.from_server, wait: false }
    }

    /// Passes every event that is there on to `tx`.
    pub fn forward_all(&mut self, tx: &mut Sender<ServerMsg>) -> (outcome: Result<(), ClientError>)
        ensures
            old(self).same_client(*final(self)),
            old(self).ends.only_received(final(self).ends),
            events_into(*final(tx)) == events_into(*old(tx)),
            event_sends(*old(tx)).is_prefix_of(event_sends(*final(tx))),
            forwarded(
                old(self).ends.seen_by(final(self).ends),
                offered_since(event_sends(*old(tx)), *final(tx)),
                outcome,
            ),
    {
        forward_available(&mut self.ends.from_server, tx)
    }

    /// True if the client takes part in the step barrier.
    pub fn step_participant(&self) -> (yes: bool)
        ensures
            yes == self.step_participant,
    {
        self.step_participant
    }

    pub fn id(&self) -> (id: u64)
        ensures
            id == self.client_id,
    {
        self.client_id
    }

    /// The text of an error of this client.
    pub fn describe(error: ClientError) -> (text: String)
        ensures
            text@ == if error is Closed {
                "[remote-client] server closed connection"@
            } else {
                error.cause_text()
            },
    {
        match error {
            ClientError::Closed => "[remote-client] server closed connection".to_string(),
            _ => error.cause(),
        }
    }
}

impl Clone for Client {
    /// Another handle on the same registration. The channels close when the last one is dropped.
    fn clone(&self) -> (copy: Self)
        ensures
            self.same_client(copy),
            request_sends(copy.ends.to_server).len() == 0,
            event_receives(copy.ends.from_server).len() == 0,
    {
        Client {
            step_participant: self.step_participant,
            client_id: self.client_id,
            ends: Ends {
                to_server: clone_request_sender(&self.ends.to_server),
                from_server: clone_event_receiver(&self.ends.from_server),
            },
        }
    }
}

/// A connection to a gRPC server that has not given the client an id yet.
pub struct RemoteSession {
    /// The URL to connect to.
    pub endpoint: String,
    /// What to register with.
    pub request: RegisterRequest,
    /// What the client will hold.
    pub ends: Ends,
    /// What carries its requests to the server.
    pub requests: Receiver<ClientMsg>,
    /// What brings it the server's events.
    pub events: Sender<ServerMsg>,
}

impl RemoteSession {
    /// True of a session for `address` through which nothing has passed.
    pub open spec fn prepared(self, step_participant: bool, address: Seq<char>) -> bool {
        &&& self.endpoint@ == endpoint_of(address)
        &&& self.request.client_name@ == Seq::<char>::empty()
        &&& self.request.step_participant == step_participant
        &&& self.connected()
        &&& request_sends(self.ends.to_server).len() == 0
        &&& request_receives(self.requests).len() == 0
        &&& event_sends(self.events).len() == 0
        &&& event_receives(self.ends.from_server).len() == 0
    }

    /// The client's ends lead to this session, over channels without a limit.
    pub open spec fn connected(self) -> bool {
        &&& requests_into(self.ends.to_server) == requests_from(self.requests)
        &&& requests_from(self.requests).capacity is None
        &&& events_into(self.events) == events_from(self.ends.from_server)
        &&& events_into(self.events).capacity is None
    }

    fn prepare(step_participant: bool, address: &str) -> (session: RemoteSession)
        ensures
            session.prepared(step_participant, address@),
    {
        let (to_server, requests) = unbounded_requests(None);
        let (events, from_server) = unbounded_events(None);
        RemoteSession {
            endpoint: endpoint(address),
            request: RegisterRequest { client_name: String::new(), step_participant },
            ends: Ends { to_server, from_server },
            requests,
            events,
        }
    }

    /// The client, once the server has given it `client_id`, and the two directions of its
    /// stream.
    pub fn registered(self, client_id: u64) -> (parts: (Client, Uplink, Downlink))
        ensures
            parts.0 == (Client {
                step_participant: self.request.step_participant,
                client_id,
                ends: self.ends,
            }),
            parts.1 == (Uplink { client_id, requests: self.requests }),
            parts.2 == (Downlink { events: self.events }),
    {
        (
            Client {
                step_participant: self.request.step_participant,
                client_id,
                ends: self.ends,
            },
            Uplink { client_id, requests: self.requests },
            Downlink { events: self.events },
        )
    }
}

/// The direction of a remote client's stream that leads to the server.
pub struct Uplink {
    pub client_id: u64,
    pub requests: Receiver<ClientMsg>,
}

impl Uplink {
    /// The value of the `client-id` metadata that opens the stream.
    pub fn metadata(&self) -> (text: String)
        ensures
            text@ == decimal(self.client_id as nat),
    {
        to_decimal(self.client_id)
    }

    /// `got` and `post` come from this direction by taking the next request.
    pub open spec fn fetched(self, got: Option<ClientMsg>, post: Uplink) -> bool {
        &&& post.client_id == self.client_id
        &&& requests_from(post.requests) == requests_from(self.requests)
        &&& request_receives(post.requests) == request_receives(self.requests).push(
            request_receives(post.requests).last(),
        )
        &&& got == stamped(request_receives(post.requests).last(), self.client_id)
    }

    /// Waits for the next request, and marks it as coming from this client. None means that the
    /// client is gone.
    pub fn next_request(&mut self) -> (got: Option<ClientMsg>)
        ensures
            old(self).fetched(got, *final(self)),
            got is Some == request_receives(final(self).requests).last() is Some,
            got is Some ==> (got->0).body == (request_receives(
                final(self).requests,
            ).last()->0).body,
    {
        let got: Option<ClientMsg> = recv_request(&mut self.requests);
        match got {
            Some(msg) => Some(ClientMsg { client_id: self.client_id, body: msg.body }),
            None => None,
        }
    }
}

/// The message with the client id replaced by `client_id`.
pub open spec fn stamped(msg: Option<ClientMsg>, client_id: u64) -> Option<ClientMsg> {
    match msg {
        Some(msg) => Some(ClientMsg { client_id, body: msg.body }),
        None => None,
    }
}

/// What comes out of a stream.
pub enum StreamItem<T> {
    Message(T),
    /// The stream failed.
    Error,
    /// The stream has ended.
    End,
}

/// The direction of a remote client's stream that leads to the client.
pub struct Downlink {
    pub events: Sender<ServerMsg>,
}

impl Downlink {
    /// Hands an event on to the client. When the stream fails or ends this direction is given up,
    /// which closes the client's channel: the client gets what has come in, and then an error.
    pub fn on_item(self, item: StreamItem<ServerMsg>) -> (rest: Option<Downlink>)
        ensures
            self.took(item, rest),
    {
        let mut rest = self;
        match item {
            StreamItem::Message(msg) => {
                let _ = send_event(&mut rest.events, msg);
                Some(rest)
            },
            _ => None,
        }
    }

    /// `rest` is what is left of this direction once `item` has come out of the stream.
    pub open spec fn took(self, item: StreamItem<ServerMsg>, rest: Option<Downlink>) -> bool {
        match item {
            StreamItem::Message(msg) => rest is Some && self.handed_on(msg, rest->0),
            _ => rest is None,
        }
    }

    /// `post` is this direction once `msg` has been offered to the client.
    pub open spec fn handed_on(self, msg: ServerMsg, post: Downlink) -> bool {
        let accepted = event_sends(post.events).last().1;
        &&& events_into(post.events) == events_into(self.events)
        &&& event_sends(post.events) == event_sends(self.events).push((msg, accepted))
    }
}

/// A client in the same process as its server that sends without looking at the outcome.
pub struct LocalClient {
    pub client_id: u64,
    pub ends: Ends,
}

impl LocalClient {
    /// Registers a client of a server in this process.
    pub fn new<S: Simulation>(server: &mut Server<S>, step_participant: bool) -> (client: Result<
        LocalClient,
        ClientError,
    >)
        ensures
            client matches Ok(client) && joined(
                *old(server),
                true,
                step_participant,
                client.client_id,
                client.ends,
                *final(server),
            ),
    {
        let (client_id, to_server, from_server) = server.register_client::<true>(step_participant);
        Ok(LocalClient { client_id, ends: Ends { to_server, from_server } })
    }

    /// Sends a message to the server.
    pub fn send(&mut self, body: ClientMsgBody)
        ensures
            final(self).client_id == old(self).client_id,
            old(self).ends.sent(
                ClientMsg { client_id: old(self).client_id, body: Some(body) },
                request_sends(final(self).ends.to_server).last().1,
                final(self).ends,
            ),
    {
        let msg = ClientMsg { client_id: self.client_id, body: Some(body) };
        let _ = self.ends.send(msg);
    }

    /// Waits for the next event.
    pub fn recv(&mut self) -> (outcome: Result<ServerMsg, ClientError>)
        ensures
            final(self).client_id == old(self).client_id,
            old(self).ends.only_received(final(self).ends),
            match outcome {
                Ok(msg) => old(self).ends.seen_by(final(self).ends) == seq![Receipt::Event(msg)],
                Err(error) => error is Closed && old(self).ends.seen_by(final(self).ends) == seq![
                    Receipt::Closed,
                ],
            },
    {
        self.ends.recv()
    }

    /// The next event, if one is there.
    pub fn try_recv(&mut self) -> (got: Option<ServerMsg>)
        ensures
            final(self).client_id == old(self).client_id,
            old(self).ends.only_received(final(self).ends),
            match got {
                Some(msg) => old(self).ends.seen_by(final(self).ends) == seq![Receipt::Event(msg)],
                None => old(self).ends.seen_nothing(final(self).ends),
            },
    {
        self.ends.try_recv()
    }

    /// The events that come in, one at a time, waiting for each. Ends when the server disconnects.
    pub fn iter(&mut self) -> (events: Incoming<'_>)
        ensures
            events.wait,
            *events.rx == old(self).ends.from_server,
            *final(events.rx) == final(self).ends.from_server,
            final(self).ends.to_server == old(self).ends.to_server,
            final(self).client_id == old(self).client_id,
    {
        Incoming { rx: &mut self.ends.from_server, wait: true }
    }

    /// The events that are there, one at a time, without waiting.
    pub fn try_iter(&mut self) -> (events: Incoming<'_>)
        ensures
            !events.wait,
            *events.rx == old(self).ends.from_server,
            *final(events.rx) == final(self).ends.from_server,
            final(self).ends.to_server == old(self).ends.to_server,
            final(self).client_id == old(self).client_id,
    {
        Incoming { rx: &mut self.ends.from_server, wait: false }
    }

    /// The text of an error of this client.
    pub fn describe(error: ClientError) -> (text: String)
        ensures
            text@ == "failed to receive from server: "@ + error.cause_text(),
    {
        let mut text: String = "failed to receive from server: ".to_string();
        text.append(error.cause().as_str());
        text
    }
}

/// A client of a gRPC server that can send before it knows its id.
pub struct RemoteClient {
    pub ends: Ends,
}

impl RemoteClient {
    /// A client of the gRPC server at `addr`, and the session that connects it.
    pub fn new(step_participant: bool, addr: &str) -> (parts: (RemoteClient, PendingLink))
        ensures
            parts.1.endpoint@ == endpoint_of(addr@),
            parts.1.request.client_name@ == Seq::<char>::empty(),
            parts.1.request.step_participant == step_participant,
            requests_into(parts.0.ends.to_server) == requests_from(parts.1.requests),
            requests_from(parts.1.requests).capacity is None,
            events_into(parts.1.events) == events_from(parts.0.ends.from_server),
            events_into(parts.1.events).capacity is None,
            request_sends(parts.0.ends.to_server).len() == 0,
            request_receives(parts.1.requests).len() == 0,
            event_sends(parts.1.events).len() == 0,
            event_receives(parts.0.ends.from_server).len() == 0,
    {
        let session = RemoteSession::prepare(step_participant, addr);
        (
            RemoteClient { ends: session.ends },
            PendingLink {
                endpoint: session.endpoint,
                request: session.request,
                requests: session.requests,
                events: session.events,
            },
        )
    }

    /// Sends a message to the server. The id is filled in on the way.
    pub fn send(&mut self, body: ClientMsgBody)
        ensures
            old(self).ends.sent(
                ClientMsg { client_id: 0, body: Some(body) },
                request_sends(final(self).ends.to_server).last().1,
                final(self).ends,
            ),
    {
        let _ = self.ends.send(ClientMsg { client_id: 0, body: Some(body) });
    }

    /// Waits for the next event.
    pub fn recv(&mut self) -> (outcome: Result<ServerMsg, ClientError>)
        ensures
            old(self).ends.only_received(final(self).ends),
            match outcome {
                Ok(msg) => old(self).ends.seen_by(final(self).ends) == seq![Receipt::Event(msg)],
                Err(error) => error is Closed && old(self).ends.seen_by(final(self).ends) == seq![
                    Receipt::Closed,
                ],
            },
    {
        self.ends.recv()
    }

    /// The next event, if one is there.
    pub fn try_recv(&mut self) -> (got: Option<ServerMsg>)
        ensures
            old(self).ends.only_received(final(self).ends),
            match got {
                Some(msg) => old(self).ends.seen_by(final(self).ends) == seq![Receipt::Event(msg)],
                None => old(self).ends.seen_nothing(final(self).ends),
            },
    {
        self.ends.try_recv()
    }

    /// The events that come in, one at a time, waiting for each. Ends when the server disconnects.
    pub fn iter(&mut self) -> (events: Incoming<'_>)
        ensures
            events.wait,
            *events.rx == old(self).ends.from_server,
            *final(events.rx) == final(self).ends.from_server,
            final(self).ends.to_server == old(self).ends.to_server,
    {
        Incoming { rx: &mut self.ends.from_server, wait: true }
    }

    /// The events that are there, one at a time, without waiting.
    pub fn try_iter(&mut self) -> (events: Incoming<'_>)
        ensures
            !events.wait,
            *events.rx == old(self).ends.from_server,
            *final(events.rx) == final(self).ends.from_server,
            final(self).ends.to_server == old(self).ends.to_server,
    {
        Incoming { rx: &mut self.ends.from_server, wait: false }
    }

    /// The text of an error of this client.
    pub fn describe(error: ClientError) -> (text: String)
        ensures
            text@ == "receive failed: "@ + error.cause_text(),
    {
        let mut text: String = "receive failed: ".to_string();
        text.append(error.cause().as_str());
        text
    }
}

/// The connection of a `RemoteClient` before the server has given it an id.
pub struct PendingLink {
    /// The URL to connect to.
    pub endpoint: String,
    /// What to register with.
    pub request: RegisterRequest,
    pub requests: Receiver<ClientMsg>,
    pub events: Sender<ServerMsg>,
}

impl PendingLink {
    /// The two directions of the stream, once the server has given the client `client_id`.
    pub fn registered(self, client_id: u64) -> (parts: (Uplink, Downlink))
        ensures
            parts.0 == (Uplink { client_id, requests: self.requests }),
            parts.1 == (Downlink { events: self.events }),
    {
        (Uplink { client_id, requests: self.requests }, Downlink { events: self.events })
    }
}

/// A client speaks under its own id, and says what it was given to say.
pub proof fn law_a_client_speaks_under_its_id(client: Client, body: ClientMsgBody)
    ensures
        client.message(body).client_id == client.client_id,
        client.message(body).body == Some(body),
{
}

/// What comes out of the stream reaches the client as it is, and nothing else does; a stream that
/// fails or ends gives up the client's direction.
pub proof fn law_the_downlink_hands_events_on_as_they_are(
    pre: Downlink,
    item: StreamItem<ServerMsg>,
    rest: Option<Downlink>,
)
    requires
        pre.took(item, rest),
    ensures
        rest is Some <==> item is Message,
        rest is Some ==> {
            let before = event_sends(pre.events);
            let after = event_sends((rest->0).events);
            &&& events_into((rest->0).events) == events_into(pre.events)
            &&& after.len() == before.len() + 1
            &&& forall|i: int| 0 <= i < before.len() ==> #[trigger] after[i] == before[i]
            &&& after[before.len() as int].0 == item->Message_0
        },
{
}

/// Joining is registering: the server keeps no way in for a client of its own process, so that the
/// client's channel closes with the client; what the client sends goes where the server listens to
/// it, and what the server sends it comes out at its end.
pub proof fn law_joining_connects_the_client<S: Simulation>(
    before: Server<S>,
    local: bool,
    step_participant: bool,
    client_id: u64,
    ends: Ends,
    after: Server<S>,
)
    requires
        joined(before, local, step_participant, client_id, ends, after),
    ensures
        client_id == before.next_client_id,
        clients_in(after.clients).dom().contains(client_id),
        ({
            let info = clients_in(after.clients)[client_id];
            &&& info.step_participant == step_participant
            &&& info.inbound_tx is None <==> local
            &&& requests_into(ends.to_server) == requests_from(info.inbound_rx)
            &&& events_into(info.outbound_tx) == events_from(ends.from_server)
            &&& events_from(info.outbound_rx) == events_from(ends.from_server)
        }),
        after.sim == before.sim,
        after.shutdown_flag == before.shutdown_flag,
{
}

/// A handle on the same registration has the same id and role, and leads to the same channels.
pub proof fn law_the_same_client_has_the_same_channels(client: Client, other: Client)
    requires
        client.same_client(other),
    ensures
        other.client_id == client.client_id,
        other.step_participant == client.step_participant,
        requests_into(other.ends.to_server) == requests_into(client.ends.to_server),
        events_from(other.ends.from_server) == events_from(client.ends.from_server),
{
}

/// A session that was prepared registers in the role that was asked for and without a name, goes to
/// the endpoint of its address, and carries what passes between the client's ends and the stream,
/// without a limit. Nothing has passed yet.
pub proof fn law_a_session_connects_the_client(
    session: RemoteSession,
    step_participant: bool,
    address: Seq<char>,
)
    requires
        session.prepared(step_participant, address),
    ensures
        session.endpoint@ == endpoint_of(address),
        session.request.step_participant == step_participant,
        session.request.client_name@.len() == 0,
        requests_into(session.ends.to_server) == requests_from(session.requests),
        events_into(session.events) == events_from(session.ends.from_server),
        requests_from(session.requests).capacity is None,
        events_into(session.events).capacity is None,
        request_receives(session.requests).len() == 0,
        event_sends(session.events).len() == 0,
{
}

} // verus!
