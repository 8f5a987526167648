//! The gRPC service of the server: registration, and the stream of a remote client.

use crate::channel::{
    event_receives, events_from, events_into, request_receives, request_sends, requests_from,
    requests_into, send_request, try_recv_event, Receipt,
};
use crate::client::{joined, stamped, StreamItem, Uplink};
use crate::interface::{ClientMsg, RegisterRequest, RegisterResponse, ServerMsg, Simulation};
use crate::link::Ends;
use crate::registry::{clients_in, get};
use crate::server::Server;
use crate::text::{
    ascii_bytes, check_metadata_text, decimal, is_digit, is_metadata_byte, is_metadata_text,
    law_decimal_round_trip, lemma_decimal_bytes, parse_u64, parsed_u64,
};
use crossbeam_channel::{Receiver, Sender};
use vstd::prelude::*;

verus! {

/// Why a stream could not be opened.
#[derive(Debug, Clone, Copy, PartialEq, Eq)]
pub enum OpenError {
    /// There is no client id in the metadata.
    MissingClientId,
    /// The client id in the metadata is not text.
    InvalidMetadata,
    /// The client id in the metadata is not a number.
    InvalidNumber,
    /// There is no client of that id.
    NotRegistered,
}

/// The gRPC status that an error is reported with.
#[derive(Debug, Clone, Copy, PartialEq, Eq)]
pub enum StatusCode {
    Unauthenticated,
    InvalidArgument,
    NotFound,
}

impl OpenError {
    pub fn code(&self) -> (code: StatusCode)
        ensures
            code == match self {
                OpenError::MissingClientId => StatusCode::Unauthenticated,
                OpenError::InvalidMetadata => StatusCode::InvalidArgument,
                OpenError::InvalidNumber => StatusCode::InvalidArgument,
                OpenError::NotRegistered => StatusCode::NotFound,
            },
    {
        match self {
            OpenError::MissingClientId => StatusCode::Unauthenticated,
            OpenError::InvalidMetadata => StatusCode::InvalidArgument,
            OpenError::InvalidNumber => StatusCode::InvalidArgument,
            OpenError::NotRegistered => StatusCode::NotFound,
        }
    }

    pub fn message(&self) -> (text: String)
        ensures
            text@ == match self {
                OpenError::MissingClientId => "missing client-id metadata"@,
                OpenError::InvalidMetadata => "invalid client-id metadata"@,
                OpenError::InvalidNumber => "invalid client-id number"@,
                OpenError::NotRegistered => "client not registered"@,
            },
    {
        match self {
            OpenError::MissingClientId => "missing client-id metadata".to_string(),
            OpenError::InvalidMetadata => "invalid client-id metadata".to_string(),
            OpenError::InvalidNumber => "invalid client-id number".to_string(),
            OpenError::NotRegistered => "client not registered".to_string(),
        }
    }
}

/// The client id that the value of the `client-id` metadata names.
pub open spec fn named_client(metadata: Option<Vec<u8>>) -> Result<u64, OpenError> {
    match metadata {
        None => Err(OpenError::MissingClientId),
        Some(value) => if !is_metadata_text(value@) {
            Err(OpenError::InvalidMetadata)
        } else {
            match parsed_u64(value@) {
                None => Err(OpenError::InvalidNumber),
                Some(id) => Ok(id),
            }
        },
    }
}

/// The client id that the value of the `client-id` metadata names.
pub fn client_id_of(metadata: &Option<Vec<u8>>) -> (id: Result<u64, OpenError>)
    ensures
        id == named_client(*metadata),
{
    match metadata {
        None => Err(OpenError::MissingClientId),
        Some(value) => {
            if !check_metadata_text(value) {
                return Err(OpenError::InvalidMetadata);
            }
            match parse_u64(value) {
                None => Err(OpenError::InvalidNumber),
                Some(id) => Ok(id),
            }
        },
    }
}

/// The metadata that a client writes to open its stream names that client.
pub proof fn law_metadata_names_the_client(metadata: Vec<u8>, client_id: u64)
    requires
        metadata@ == ascii_bytes(decimal(client_id as nat)),
    ensures
        named_client(Some(metadata)) == Ok::<u64, OpenError>(client_id),
{
    law_decimal_round_trip(client_id);
    lemma_decimal_bytes(client_id as nat);
    assert forall|i: int| 0 <= i < metadata@.len() implies 32 <= #[trigger] metadata@[i] < 127 by {
        assert(is_digit(metadata@[i]));
    }
}

/// The stream of a remote client, seen from the server.
pub struct StreamLink {
    pub client_id: u64,
    /// The way to the simulation loop.
    pub inbound_tx: Sender<ClientMsg>,
    /// What the server has for the client.
    pub outbound_rx: Receiver<ServerMsg>,
}

/// The gRPC service of a server.
#[derive(Debug, Clone, Copy)]
pub struct ForwarderService {}

impl ForwarderService {
    /// Registers a remote client.
    pub fn register<S: Simulation>(&self, server: &mut Server<S>, request: RegisterRequest) -> (
    response: RegisterResponse)
        ensures
            exists|ends: Ends| #[trigger]
                joined(
                    *old(server),
                    false,
                    request.step_participant,
                    response.client_id,
                    ends,
                    *final(server),
                ),
    {
        let (client_id, to_server, from_server) = server.register_client::<false>(
            request.step_participant,
        );
        let response = RegisterResponse { client_id };
        let ghost ends = Ends { to_server, from_server };
        assert(joined(
            *old(server),
            false,
            request.step_participant,
            response.client_id,
            ends,
            *server,
        ));
        response
    }

    /// Opens the stream of the client that the metadata names. That client is a remote one: of a
    /// local one the server keeps no way in. See `try_open`.
    pub fn open<S: Simulation>(&self, server: &Server<S>, metadata: &Option<Vec<u8>>) -> (link:
        Result<StreamLink, OpenError>)
        requires
            !names_local_client(*server, *metadata),
        ensures
            is_open(*server, *metadata, link),
    {
        let client_id: u64 = match client_id_of(metadata) {
            Ok(id) => id,
            Err(error) => {
                return Err(error);
            },
        };
        match get(&server.clients, client_id) {
            None => Err(OpenError::NotRegistered),
            Some(info) => match info.inbound_tx {
                Some(inbound_tx) => Ok(
                    StreamLink { client_id, inbound_tx, outbound_rx: info.outbound_rx },
                ),
                None => {
                    assert(false);
                    Err(OpenError::NotRegistered)
                },
            },
        }
    }

    /// Opens the stream of the client that the metadata names, or nothing if that client is a
    /// local one.
    pub fn try_open<S: Simulation>(&self, server: &Server<S>, metadata: &Option<Vec<u8>>) -> (link:
        Option<Result<StreamLink, OpenError>>)
        ensures
            link is None == names_local_client(*server, *metadata),
            link matches Some(link) ==> is_open(*server, *metadata, link),
    {
        if let Ok(client_id) = client_id_of(metadata) {
            if let Some(info) = get(&server.clients, client_id) {
                if info.inbound_tx.is_none() {
                    return None;
                }
            }
        }
        Some(self.open(server, metadata))
    }
}

/// The metadata names a client in the process of the server.
pub open spec fn names_local_client<S: Simulation>(
    server: Server<S>,
    metadata: Option<Vec<u8>>,
) -> bool {
    named_client(metadata) matches Ok(id) && clients_in(server.clients).dom().contains(id)
        && clients_in(server.clients)[id].inbound_tx is None
}

/// `link` is the answer to opening a stream: that of the named client, on its own channels, or
/// the first thing that is wrong.
pub open spec fn is_open<S: Simulation>(
    server: Server<S>,
    metadata: Option<Vec<u8>>,
    link: Result<StreamLink, OpenError>,
) -> bool {
    match named_client(metadata) {
        Err(error) => link == Err::<StreamLink, OpenError>(error),
        Ok(id) => if !clients_in(server.clients).dom().contains(id) {
            link == Err::<StreamLink, OpenError>(OpenError::NotRegistered)
        } else {
            &&& link is Ok
            &&& link->Ok_0.client_id == id
            &&& requests_into(link->Ok_0.inbound_tx) == requests_into(
                clients_in(server.clients)[id].inbound_tx->0,
            )
            &&& events_from(link->Ok_0.outbound_rx) == events_from(
                clients_in(server.clients)[id].outbound_rx,
            )
            &&& request_sends(link->Ok_0.inbound_tx).len() == 0
            &&& event_receives(link->Ok_0.outbound_rx).len() == 0
        },
    }
}

/// A client that has registered over gRPC can open its stream with the id that it was given, and
/// the stream leads to where the simulation loop listens to it.
pub proof fn law_registered_client_can_open<S: Simulation>(
    before: Server<S>,
    step_participant: bool,
    client_id: u64,
    ends: Ends,
    after: Server<S>,
    metadata: Vec<u8>,
    link: Result<StreamLink, OpenError>,
)
    requires
        joined(before, false, step_participant, client_id, ends, after),
        metadata@ == ascii_bytes(decimal(client_id as nat)),
        is_open(after, Some(metadata), link),
    ensures
        !names_local_client(after, Some(metadata)),
        link is Ok,
        link->Ok_0.client_id == client_id,
        requests_into(link->Ok_0.inbound_tx) == requests_from(
            clients_in(after.clients)[client_id].inbound_rx,
        ),
        events_from(link->Ok_0.outbound_rx) == events_into(
            clients_in(after.clients)[client_id].outbound_tx,
        ),
{
    law_metadata_names_the_client(metadata, client_id);
}

impl StreamLink {
    /// `post` and `go_on` come from this stream when `item` comes out of it.
    pub open spec fn handed_up(
        self,
        item: StreamItem<ClientMsg>,
        go_on: bool,
        post: StreamLink,
    ) -> bool {
        &&& post.client_id == self.client_id
        &&& post.outbound_rx == self.outbound_rx
        &&& requests_into(post.inbound_tx) == requests_into(self.inbound_tx)
        &&& match item {
            StreamItem::Message(msg) => request_sends(post.inbound_tx) == request_sends(
                self.inbound_tx,
            ).push((stamped(Some(msg), self.client_id)->0, go_on)),
            _ => !go_on && post == self,
        }
    }

    /// Hands a message of the stream on to the simulation loop, marked as coming from this
    /// client. The stream is done when it fails or ends, or when the loop is gone.
    pub fn on_item(&mut self, item: StreamItem<ClientMsg>) -> (go_on: bool)
        ensures
            old(self).handed_up(item, go_on, *final(self)),
            item matches StreamItem::Message(msg) ==> request_sends(
                final(self).inbound_tx,
            ).last().0.body == msg.body,
    {
        match item {
            StreamItem::Message(msg) => {
                let msg = ClientMsg { client_id: self.client_id, body: msg.body };
                send_request(&mut self.inbound_tx, msg)
            },
            _ => false,
        }
    }

    /// `post` and `item` come from this stream by looking for something to send.
    pub open spec fn handed_down(
        self,
        item: Option<StreamItem<ServerMsg>>,
        post: StreamLink,
    ) -> bool {
        &&& post.client_id == self.client_id
        &&& post.inbound_tx == self.inbound_tx
        &&& events_from(post.outbound_rx) == events_from(self.outbound_rx)
        &&& event_receives(post.outbound_rx) == event_receives(self.outbound_rx).push(
            event_receives(post.outbound_rx).last(),
        )
        &&& item == outgoing(event_receives(post.outbound_rx).last())
    }

    /// What the stream sends next: an event for the client if one is there, or its end once the
    /// server has dropped the client and there are no events left. None means that there is
    /// nothing to send yet.
    pub fn next_outgoing(&mut self) -> (item: Option<StreamItem<ServerMsg>>)
        ensures
            old(self).handed_down(item, *final(self)),
    {
        let got: Receipt = try_recv_event(&mut self.outbound_rx);
        StreamLink::item_of(got)
    }

    /// What a receive on the client's events gives the stream to send.
    pub fn item_of(receipt: Receipt) -> (item: Option<StreamItem<ServerMsg>>)
        ensures
            item == outgoing(receipt),
    {
        match receipt {
            Receipt::Event(msg) => Some(StreamItem::Message(msg)),
            Receipt::Closed => Some(StreamItem::End),
            Receipt::Nothing => None,
        }
    }

    /// The end of the stream, from either side: the server forgets the client.
    pub fn close<S: Simulation>(self, server: &mut Server<S>)
        ensures
            clients_in(final(server).clients) == clients_in(old(server).clients).remove(
                self.client_id,
            ),
            final(server).next_client_id == old(server).next_client_id,
            final(server).sim == old(server).sim,
            final(server).shutdown_flag == old(server).shutdown_flag,
            old(server).well_formed() ==> final(server).well_formed(),
    {
        server.unregister_client(self.client_id);
    }
}

/// What a receive on the client's events gives the stream to send.
pub open spec fn outgoing(receipt: Receipt) -> Option<StreamItem<ServerMsg>> {
    match receipt {
        Receipt::Event(msg) => Some(StreamItem::Message(msg)),
        Receipt::Closed => Some(StreamItem::End),
        Receipt::Nothing => None,
    }
}

/// The stream changes nothing of a message but its client id. Whatever a remote client has sent,
/// of whatever kind, its side of the stream takes it with the id of that client filled in, and the
/// server's side hands it to the simulation loop with the id of the client that the stream was
/// opened for. The body is the one that was sent, and nothing else is handed on.
pub proof fn law_the_stream_keeps_every_message(
    uplink: Uplink,
    got: Option<ClientMsg>,
    uplink_after: Uplink,
    link: StreamLink,
    go_on: bool,
    link_after: StreamLink,
)
    requires
        uplink.fetched(got, uplink_after),
        got is Some ==> link.handed_up(StreamItem::Message(got->0), go_on, link_after),
    ensures
        ({
            let taken = request_receives(uplink_after.requests);
            let before = request_receives(uplink.requests);
            &&& taken.len() == before.len() + 1
            &&& forall|i: int| 0 <= i < before.len() ==> #[trigger] taken[i] == before[i]
            &&& match taken[before.len() as int] {
                None => got is None,
                Some(sent) => {
                    let handed = request_sends(link.inbound_tx);
                    let handed_after = request_sends(link_after.inbound_tx);
                    &&& got is Some
                    &&& (got->0).body == sent.body
                    &&& (got->0).client_id == uplink.client_id
                    &&& handed_after.len() == handed.len() + 1
                    &&& forall|i: int|
                        0 <= i < handed.len() ==> #[trigger] handed_after[i] == handed[i]
                    &&& handed_after[handed.len() as int].0.body == sent.body
                    &&& handed_after[handed.len() as int].0.client_id == link.client_id
                    &&& handed_after[handed.len() as int].1 == go_on
                    &&& requests_into(link_after.inbound_tx) == requests_into(link.inbound_tx)
                },
            }
        }),
        uplink_after.client_id == uplink.client_id,
{
}

/// A stream that fails or ends hands nothing on, and is done.
pub proof fn law_a_stream_that_is_over_hands_nothing_on(
    link: StreamLink,
    item: StreamItem<ClientMsg>,
    go_on: bool,
    link_after: StreamLink,
)
    requires
        link.handed_up(item, go_on, link_after),
        !(item is Message),
    ensures
        !go_on,
        request_sends(link_after.inbound_tx) == request_sends(link.inbound_tx),
{
}

/// The stream sends what the server has for the client as it is, ends when there can be nothing
/// more, and else sends nothing.
pub proof fn law_the_stream_sends_events_as_they_are(
    link: StreamLink,
    item: Option<StreamItem<ServerMsg>>,
    link_after: StreamLink,
)
    requires
        link.handed_down(item, link_after),
    ensures
        ({
            let before = event_receives(link.outbound_rx);
            let after = event_receives(link_after.outbound_rx);
            &&& after.len() == before.len() + 1
            &&& forall|i: int| 0 <= i < before.len() ==> #[trigger] after[i] == before[i]
            &&& match after[before.len() as int] {
                Receipt::Event(msg) => item == Some(StreamItem::Message(msg)),
                Receipt::Closed => item == Some(StreamItem::<ServerMsg>::End),
                Receipt::Nothing => item is None,
            }
        }),
        request_sends(link_after.inbound_tx) == request_sends(link.inbound_tx),
        link_after.client_id == link.client_id,
{
}

/// Opening a stream says the first thing that is wrong: no client id, a client id that is no text,
/// one that is no number, or one of a client that is not registered. If nothing is wrong, the
/// stream is that of the named client, on that client's own channels.
pub proof fn law_opening_says_what_is_wrong<S: Simulation>(
    server: Server<S>,
    metadata: Option<Vec<u8>>,
    link: Result<StreamLink, OpenError>,
)
    requires
        is_open(server, metadata, link),
    ensures
        match metadata {
            None => link == Err::<StreamLink, OpenError>(OpenError::MissingClientId),
            Some(value) => if exists|i: int|
                0 <= i < value@.len() && !(32 <= #[trigger] value@[i] < 127 || value@[i] == 9) {
                link == Err::<StreamLink, OpenError>(OpenError::InvalidMetadata)
            } else {
                match parsed_u64(value@) {
                    None => link == Err::<StreamLink, OpenError>(OpenError::InvalidNumber),
                    Some(id) => if !clients_in(server.clients).dom().contains(id) {
                        link == Err::<StreamLink, OpenError>(OpenError::NotRegistered)
                    } else {
                        let info = clients_in(server.clients)[id];
                        &&& link is Ok
                        &&& link->Ok_0.client_id == id
                        &&& info.inbound_tx matches Some(tx) ==> requests_into(
                            link->Ok_0.inbound_tx,
                        ) == requests_into(tx)
                        &&& events_from(link->Ok_0.outbound_rx) == events_from(info.outbound_rx)
                        &&& request_sends(link->Ok_0.inbound_tx).len() == 0
                        &&& event_receives(link->Ok_0.outbound_rx).len() == 0
                    },
                }
            },
        },
{
    if let Some(value) = metadata {
        if exists|i: int|
            0 <= i < value@.len() && !(32 <= #[trigger] value@[i] < 127 || value@[i] == 9) {
            let i = choose|i: int|
                0 <= i < value@.len() && !(32 <= #[trigger] value@[i] < 127 || value@[i] == 9);
            assert(!is_metadata_byte(value@[i]));
        } else {
            assert(is_metadata_text(value@));
        }
    }
}

/// Only the id of a client in the process of the server is refused by `open`: one that the metadata
/// names in text, that is registered, and of which the server keeps no way in.
pub proof fn law_open_takes_everything_but_local_clients<S: Simulation>(
    server: Server<S>,
    metadata: Option<Vec<u8>>,
)
    ensures
        names_local_client(server, metadata) ==> {
            &&& metadata is Some
            &&& parsed_u64((metadata->0)@) is Some
            &&& clients_in(server.clients).dom().contains(parsed_u64((metadata->0)@)->0)
            &&& clients_in(server.clients)[parsed_u64((metadata->0)@)->0].inbound_tx is None
        },
{
}

} // verus!
