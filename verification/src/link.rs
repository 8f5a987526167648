//! What a client does with the two ends it holds: waiting for a particular event, draining what
//! has come in, and passing events on.
//!
//! Waiting ends after `PATIENCE` events. That many never come in practice; the limit makes every
//! wait end.

use crate::channel::{
    event_receives, event_sends, events_from, events_into, recv_event, request_sends,
    requests_into, send_event, send_request, try_recv_event, Receipt,
};
use crate::interface::{ClientMsg, RegisterResponse, ServerMsg, ServerMsgBody, Tick};
use crossbeam_channel::{Receiver, Sender};
use vstd::prelude::*;

verus! {

/// Why a client could not go on.
#[derive(Debug, Clone, Copy, PartialEq, Eq)]
pub enum ClientError {
    /// The far end of the channel that was sent into is gone.
    Rejected,
    /// The server has closed the connection.
    Closed,
    /// No event of the awaited kind among `PATIENCE` events.
    Exhausted,
}

impl ClientError {
    /// The text of the error, as the channel reports it.
    pub fn cause(&self) -> (text: String)
        ensures
            text@ == self.cause_text(),
    {
        match self {
            ClientError::Rejected => "sending on a disconnected channel".to_string(),
            ClientError::Closed => "receiving on an empty and disconnected channel".to_string(),
            ClientError::Exhausted => "the awaited message did not come".to_string(),
        }
    }

    pub open spec fn cause_text(self) -> Seq<char> {
        match self {
            ClientError::Rejected => "sending on a disconnected channel"@,
            ClientError::Closed => "receiving on an empty and disconnected channel"@,
            ClientError::Exhausted => "the awaited message did not come"@,
        }
    }
}

/// The number of events after which a wait is given up.
pub const PATIENCE: u64 = u64::MAX;

/// What has come in through a handle since its record was `before`.
pub open spec fn received_since(
    before: Seq<Receipt>,
    rx: Receiver<ServerMsg>,
) -> Seq<Receipt> {
    event_receives(rx).skip(before.len() as int)
}

/// What has been offered through a handle since its record was `before`.
pub open spec fn offered_since(
    before: Seq<(ServerMsg, bool)>,
    tx: Sender<ServerMsg>,
) -> Seq<(ServerMsg, bool)> {
    event_sends(tx).skip(before.len() as int)
}

/// Every receive gave an event, and none of them a tick.
pub open spec fn no_tick(seen: Seq<Receipt>) -> bool {
    forall|i: int|
        0 <= i < seen.len() ==> (#[trigger] seen[i] matches Receipt::Event(msg) && !msg.is_tick())
}

/// Every receive gave an event, and none of them a registration.
pub open spec fn no_registration(seen: Seq<Receipt>) -> bool {
    forall|i: int|
        0 <= i < seen.len() ==> (#[trigger] seen[i] matches Receipt::Event(msg)
            && !msg.is_registration())
}

/// `outcome` is that of waiting for a tick when the receives gave `seen`: the first tick, unless
/// the connection is closed before it.
pub open spec fn tick_wait(
    seen: Seq<Receipt>,
    outcome: Result<Tick, ClientError>,
) -> bool {
    match outcome {
        Ok(tick) => seen.len() > 0 && seen.last() == Receipt::Event(ServerMsg::of_tick(tick))
            && no_tick(seen.drop_last()),
        Err(ClientError::Closed) => seen.len() > 0 && seen.last() is Closed && no_tick(
            seen.drop_last(),
        ),
        Err(ClientError::Exhausted) => seen.len() == PATIENCE && no_tick(seen),
        Err(ClientError::Rejected) => false,
    }
}

/// `outcome` is that of waiting for a registration when the receives gave `seen`: the id of the
/// first one, unless the connection is closed before it.
pub open spec fn registration_wait(
    seen: Seq<Receipt>,
    outcome: Result<u64, ClientError>,
) -> bool {
    match outcome {
        Ok(id) => seen.len() > 0 && seen.last() == Receipt::Event(ServerMsg::of_registration(id))
            && no_registration(seen.drop_last()),
        Err(ClientError::Closed) => seen.len() > 0 && seen.last() is Closed && no_registration(
            seen.drop_last(),
        ),
        Err(ClientError::Exhausted) => seen.len() == PATIENCE && no_registration(seen),
        Err(ClientError::Rejected) => false,
    }
}

/// A client that waits for a tick gets an error when the connection is closed: ticks that came in
/// before are used first, and nothing but a tick or the end of the connection ends the wait.
pub proof fn law_closed_connection_ends_the_wait(
    seen: Seq<Receipt>,
    outcome: Result<Tick, ClientError>,
)
    requires
        tick_wait(seen, outcome),
        seen.len() < PATIENCE,
    ensures
        seen.len() > 0,
        outcome == Err::<Tick, ClientError>(ClientError::Closed) <==> seen.last() is Closed,
        outcome is Ok <==> (seen.last() matches Receipt::Event(msg) && msg.is_tick()),
        outcome is Ok || seen.last() is Closed,
{
}

/// Receives events until one is a tick, and gives that tick. Other events are dropped.
pub(crate) fn await_tick(rx: &mut Receiver<ServerMsg>) -> (outcome: Result<Tick, ClientError>)
    ensures
        events_from(*final(rx)) == events_from(*old(rx)),
        event_receives(*old(rx)).is_prefix_of(event_receives(*final(rx))),
        tick_wait(received_since(event_receives(*old(rx)), *final(rx)), outcome),
{
    let ghost before = event_receives(*rx);
    let mut left: u64 = PATIENCE;
    while left > 0
        invariant
            before == event_receives(*old(rx)),
            events_from(*rx) == events_from(*old(rx)),
            before.is_prefix_of(event_receives(*rx)),
            received_since(before, *rx).len() == PATIENCE - left,
            no_tick(received_since(before, *rx)),
        decreases left,
    {
        let ghost seen = received_since(before, *rx);
        let got: Option<ServerMsg> = recv_event(rx);
        let ghost receipt = event_receives(*rx).last();
        assert(received_since(before, *rx) =~= seen.push(receipt));
        assert(seen.push(receipt).drop_last() =~= seen);
        match got {
            None => {
                return Err(ClientError::Closed);
            },
            Some(msg) => {
                if let Some(ServerMsgBody::Tick(tick)) = msg.body {
                    return Ok(tick);
                }
            },
        }
        left = left - 1;
    }
    Err(ClientError::Exhausted)
}

/// Receives events until one is a registration, and gives its id. Other events are dropped.
pub(crate) fn await_registration(rx: &mut Receiver<ServerMsg>) -> (outcome: Result<
    u64,
    ClientError,
>)
    ensures
        events_from(*final(rx)) == events_from(*old(rx)),
        event_receives(*old(rx)).is_prefix_of(event_receives(*final(rx))),
        registration_wait(received_since(event_receives(*old(rx)), *final(rx)), outcome),
{
    let ghost before = event_receives(*rx);
    let mut left: u64 = PATIENCE;
    while left > 0
        invariant
            before == event_receives(*old(rx)),
            events_from(*rx) == events_from(*old(rx)),
            before.is_prefix_of(event_receives(*rx)),
            received_since(before, *rx).len() == PATIENCE - left,
            no_registration(received_since(before, *rx)),
        decreases left,
    {
        let ghost seen = received_since(before, *rx);
        let got: Option<ServerMsg> = recv_event(rx);
        let ghost receipt = event_receives(*rx).last();
        assert(received_since(before, *rx) =~= seen.push(receipt));
        assert(seen.push(receipt).drop_last() =~= seen);
        match got {
            None => {
                return Err(ClientError::Closed);
            },
            Some(msg) => {
                if let Some(ServerMsgBody::Registered(RegisterResponse { client_id })) = msg.body {
                    return Ok(client_id);
                }
            },
        }
        left = left - 1;
    }
    Err(ClientError::Exhausted)
}

/// The receive that gave `receipt` is the last one: the connection is closed or, for one who does
/// not wait, no event is there.
pub open spec fn is_end(receipt: Receipt, wait: bool) -> bool {
    receipt is Closed || (!wait && receipt is Nothing)
}

/// `msgs` are the events of `seen`, up to the receive that ended it.
pub open spec fn collected(seen: Seq<Receipt>, msgs: Seq<ServerMsg>) -> bool {
    &&& forall|i: int| 0 <= i < msgs.len() ==> seen[i] == Receipt::Event(#[trigger] msgs[i])
    &&& {
        ||| seen.len() == msgs.len() + 1 && is_end(seen.last(), false)
        ||| seen.len() == msgs.len() == PATIENCE
    }
}

/// The event that a receive gave, if it gave one.
fn event_in(receipt: Receipt) -> (got: Option<ServerMsg>)
    ensures
        got == match receipt {
            Receipt::Event(msg) => Some(msg),
            _ => None,
        },
{
    match receipt {
        Receipt::Event(msg) => Some(msg),
        _ => None,
    }
}

/// Receives events until none is there.
pub(crate) fn collect(rx: &mut Receiver<ServerMsg>) -> (msgs: Vec<ServerMsg>)
    ensures
        events_from(*final(rx)) == events_from(*old(rx)),
        event_receives(*old(rx)).is_prefix_of(event_receives(*final(rx))),
        collected(received_since(event_receives(*old(rx)), *final(rx)), msgs@),
{
    let ghost before = event_receives(*rx);
    let mut msgs: Vec<ServerMsg> = Vec::new();
    let mut left: u64 = PATIENCE;
    while left > 0
        invariant
            before == event_receives(*old(rx)),
            events_from(*rx) == events_from(*old(rx)),
            before.is_prefix_of(event_receives(*rx)),
            received_since(before, *rx).len() == msgs@.len() == PATIENCE - left,
            forall|i: int|
                0 <= i < msgs@.len() ==> received_since(before, *rx)[i] == Receipt::Event(
                    #[trigger] msgs@[i],
                ),
        decreases left,
    {
        let ghost seen = received_since(before, *rx);
        let got: Option<ServerMsg> = event_in(try_recv_event(rx));
        let ghost receipt = event_receives(*rx).last();
        assert(received_since(before, *rx) =~= seen.push(receipt));
        match got {
            None => {
                return msgs;
            },
            Some(msg) => {
                msgs.push(msg);
            },
        }
        left = left - 1;
    }
    msgs
}

/// Every offer was accepted.
pub open spec fn all_accepted(offered: Seq<(ServerMsg, bool)>) -> bool {
    forall|i: int| 0 <= i < offered.len() ==> (#[trigger] offered[i]).1
}

/// The events of `seen` are those of `offered`, position by position.
pub open spec fn passed_through(
    seen: Seq<Receipt>,
    offered: Seq<(ServerMsg, bool)>,
) -> bool {
    &&& seen.len() >= offered.len()
    &&& forall|i: int|
        0 <= i < offered.len() ==> seen[i] == Receipt::Event((#[trigger] offered[i]).0)
}

/// `outcome` is that of passing on the events that are there, when the receives gave `seen` and
/// the sends were `offered`: all of them in order, unless one is not accepted.
pub open spec fn forwarded(
    seen: Seq<Receipt>,
    offered: Seq<(ServerMsg, bool)>,
    outcome: Result<(), ClientError>,
) -> bool {
    &&& passed_through(seen, offered)
    &&& match outcome {
        Ok(_) => seen.len() == offered.len() + 1 && is_end(seen.last(), false) && all_accepted(
            offered,
        ),
        Err(ClientError::Rejected) => seen.len() == offered.len() && offered.len() > 0
            && !offered.last().1 && all_accepted(offered.drop_last()),
        Err(ClientError::Exhausted) => seen.len() == offered.len() == PATIENCE && all_accepted(
            offered,
        ),
        Err(ClientError::Closed) => false,
    }
}

/// `outcome` is that of passing on events up to a tick, when the receives gave `seen` and the
/// sends were `offered`: the tick is passed on as well.
pub open spec fn forwarded_to_tick(
    seen: Seq<Receipt>,
    offered: Seq<(ServerMsg, bool)>,
    outcome: Result<(), ClientError>,
) -> bool {
    &&& passed_through(seen, offered)
    &&& match outcome {
        Ok(_) => {
            &&& seen.len() == offered.len() && offered.len() > 0
            &&& offered.last().0.is_tick()
            &&& no_tick(seen.drop_last())
            &&& all_accepted(offered)
        },
        Err(ClientError::Closed) => {
            &&& seen.len() == offered.len() + 1 && seen.last() is Closed
            &&& no_tick(seen.drop_last())
            &&& all_accepted(offered)
        },
        Err(ClientError::Rejected) => {
            &&& seen.len() == offered.len() && offered.len() > 0
            &&& no_tick(seen.drop_last())
            &&& !offered.last().1
            &&& all_accepted(offered.drop_last())
        },
        Err(ClientError::Exhausted) => {
            &&& seen.len() == offered.len() == PATIENCE
            &&& no_tick(seen)
            &&& all_accepted(offered)
        },
    }
}

/// Passes on the events that are there, without waiting.
pub(crate) fn forward_available(
    rx: &mut Receiver<ServerMsg>,
    tx: &mut Sender<ServerMsg>,
) -> (outcome: Result<(), ClientError>)
    ensures
        events_from(*final(rx)) == events_from(*old(rx)),
        events_into(*final(tx)) == events_into(*old(tx)),
        event_receives(*old(rx)).is_prefix_of(event_receives(*final(rx))),
        event_sends(*old(tx)).is_prefix_of(event_sends(*final(tx))),
        forwarded(
            received_since(event_receives(*old(rx)), *final(rx)),
            offered_since(event_sends(*old(tx)), *final(tx)),
            outcome,
        ),
{
    let ghost before = event_receives(*rx);
    let ghost start = event_sends(*tx);
    let mut left: u64 = PATIENCE;
    while left > 0
        invariant
            before == event_receives(*old(rx)),
            start == event_sends(*old(tx)),
            events_from(*rx) == events_from(*old(rx)),
            events_into(*tx) == events_into(*old(tx)),
            before.is_prefix_of(event_receives(*rx)),
            start.is_prefix_of(event_sends(*tx)),
            received_since(before, *rx).len() == PATIENCE - left,
            offered_since(start, *tx).len() == PATIENCE - left,
            passed_through(received_since(before, *rx), offered_since(start, *tx)),
            all_accepted(offered_since(start, *tx)),
        decreases left,
    {
        let ghost seen = received_since(before, *rx);
        let ghost offered = offered_since(start, *tx);
        let got: Option<ServerMsg> = event_in(try_recv_event(rx));
        let ghost receipt = event_receives(*rx).last();
        assert(received_since(before, *rx) =~= seen.push(receipt));
        match got {
            None => {
                return Ok(());
            },
            Some(msg) => {
                let accepted: bool = send_event(tx, msg);
                assert(offered_since(start, *tx) =~= offered.push((msg, accepted)));
                assert(offered.push((msg, accepted)).drop_last() =~= offered);
                if !accepted {
                    return Err(ClientError::Rejected);
                }
            },
        }
        left = left - 1;
    }
    Err(ClientError::Exhausted)
}

/// Passes on events, waiting for them, up to and including the first tick.
pub(crate) fn forward_through_tick(
    rx: &mut Receiver<ServerMsg>,
    tx: &mut Sender<ServerMsg>,
) -> (outcome: Result<(), ClientError>)
    ensures
        events_from(*final(rx)) == events_from(*old(rx)),
        events_into(*final(tx)) == events_into(*old(tx)),
        event_receives(*old(rx)).is_prefix_of(event_receives(*final(rx))),
        event_sends(*old(tx)).is_prefix_of(event_sends(*final(tx))),
        forwarded_to_tick(
            received_since(event_receives(*old(rx)), *final(rx)),
            offered_since(event_sends(*old(tx)), *final(tx)),
            outcome,
        ),
{
    let ghost before = event_receives(*rx);
    let ghost start = event_sends(*tx);
    let mut left: u64 = PATIENCE;
    while left > 0
        invariant
            before == event_receives(*old(rx)),
            start == event_sends(*old(tx)),
            events_from(*rx) == events_from(*old(rx)),
            events_into(*tx) == events_into(*old(tx)),
            before.is_prefix_of(event_receives(*rx)),
            start.is_prefix_of(event_sends(*tx)),
            received_since(before, *rx).len() == PATIENCE - left,
            offered_since(start, *tx).len() == PATIENCE - left,
            passed_through(received_since(before, *rx), offered_since(start, *tx)),
            no_tick(received_since(before, *rx)),
            all_accepted(offered_since(start, *tx)),
        decreases left,
    {
        let ghost seen = received_since(before, *rx);
        let ghost offered = offered_since(start, *tx);
        let got: Option<ServerMsg> = recv_event(rx);
        let ghost receipt = event_receives(*rx).last();
        assert(received_since(before, *rx) =~= seen.push(receipt));
        assert(seen.push(receipt).drop_last() =~= seen);
        match got {
            None => {
                return Err(ClientError::Closed);
            },
            Some(msg) => {
                let is_tick: bool = matches!(&msg.body, Some(ServerMsgBody::Tick(_)));
                let accepted: bool = send_event(tx, msg);
                assert(offered_since(start, *tx) =~= offered.push((msg, accepted)));
                assert(offered.push((msg, accepted)).drop_last() =~= offered);
                if !accepted {
                    return Err(ClientError::Rejected);
                }
                if is_tick {
                    return Ok(());
                }
            },
        }
        left = left - 1;
    }
    Err(ClientError::Exhausted)
}

/// The two ends that a client holds.
pub struct Ends {
    pub to_server: Sender<ClientMsg>,
    pub from_server: Receiver<ServerMsg>,
}

impl Ends {
    /// `post` are these ends once `msg` has been offered to the server.
    pub open spec fn sent(self, msg: ClientMsg, accepted: bool, post: Ends) -> bool {
        &&& requests_into(post.to_server) == requests_into(self.to_server)
        &&& request_sends(post.to_server) == request_sends(self.to_server).push((msg, accepted))
        &&& post.from_server == self.from_server
    }

    /// `post` are these ends after nothing but receives.
    pub open spec fn only_received(self, post: Ends) -> bool {
        &&& post.to_server == self.to_server
        &&& events_from(post.from_server) == events_from(self.from_server)
        &&& event_receives(self.from_server).is_prefix_of(event_receives(post.from_server))
    }

    /// Between these ends and `post` there was one receive, which gave no event.
    pub open spec fn seen_nothing(self, post: Ends) -> bool {
        self.seen_by(post).len() == 1 && is_end(self.seen_by(post)[0], false)
    }

    /// What the receives between these ends and `post` came to.
    pub open spec fn seen_by(self, post: Ends) -> Seq<Receipt> {
        received_since(event_receives(self.from_server), post.from_server)
    }

    /// `post` and `outcome` come from sending `msg` and then, if it is accepted, waiting for a
    /// tick.
    pub open spec fn sent_and_waited(
        self,
        msg: ClientMsg,
        outcome: Result<Tick, ClientError>,
        post: Ends,
    ) -> bool {
        let accepted = request_sends(post.to_server).last().1;
        &&& requests_into(post.to_server) == requests_into(self.to_server)
        &&& request_sends(post.to_server) == request_sends(self.to_server).push((msg, accepted))
        &&& if accepted {
            &&& events_from(post.from_server) == events_from(self.from_server)
            &&& event_receives(self.from_server).is_prefix_of(event_receives(post.from_server))
            &&& tick_wait(self.seen_by(post), outcome)
        } else {
            &&& post.from_server == self.from_server
            &&& outcome == Err::<Tick, ClientError>(ClientError::Rejected)
        }
    }

    /// Offers `msg` to the server.
    pub(crate) fn send(&mut self, msg: ClientMsg) -> (outcome: Result<(), ClientError>)
        ensures
            old(self).sent(msg, outcome is Ok, *final(self)),
            outcome is Err ==> outcome == Err::<(), ClientError>(ClientError::Rejected),
    {
        if send_request(&mut self.to_server, msg) {
            Ok(())
        } else {
            Err(ClientError::Rejected)
        }
    }

    /// Waits for the next event.
    pub(crate) fn recv(&mut self) -> (outcome: Result<ServerMsg, ClientError>)
        ensures
            old(self).only_received(*final(self)),
            match outcome {
                Ok(msg) => old(self).seen_by(*final(self)) == seq![Receipt::Event(msg)],
                Err(error) => error is Closed && old(self).seen_by(*final(self)) == seq![
                    Receipt::Closed,
                ],
            },
    {
        let got: Option<ServerMsg> = recv_event(&mut self.from_server);
        assert(old(self).seen_by(*self) =~= seq![event_receives(self.from_server).last()]);
        match got {
            Some(msg) => Ok(msg),
            None => Err(ClientError::Closed),
        }
    }

    /// The next event, if one is there.
    pub(crate) fn try_recv(&mut self) -> (got: Option<ServerMsg>)
        ensures
            old(self).only_received(*final(self)),
            match got {
                Some(msg) => old(self).seen_by(*final(self)) == seq![Receipt::Event(msg)],
                None => old(self).seen_nothing(*final(self)),
            },
    {
        let got: Option<ServerMsg> = event_in(try_recv_event(&mut self.from_server));
        assert(old(self).seen_by(*self) =~= seq![event_receives(self.from_server).last()]);
        got
    }

    /// Waits for a tick.
    pub(crate) fn wait_for_tick(&mut self) -> (outcome: Result<Tick, ClientError>)
        ensures
            old(self).only_received(*final(self)),
            tick_wait(old(self).seen_by(*final(self)), outcome),
    {
        await_tick(&mut self.from_server)
    }
}

/// The events that come in through a receiver, one at a time.
pub struct Incoming<'a> {
    pub rx: &'a mut Receiver<ServerMsg>,
    /// True if it waits for the next event, and so ends only with the connection.
    pub wait: bool,
}

impl<'a> Incoming<'a> {
    /// The next event. None means that the connection is closed or, for one that does not wait,
    /// that no event is there.
    pub fn next(&mut self) -> (got: Option<ServerMsg>)
        ensures
            final(self).wait == old(self).wait,
            *final(final(self).rx) == *final(old(self).rx),
            events_from(*final(self).rx) == events_from(*old(self).rx),
            event_receives(*final(self).rx) == event_receives(*old(self).rx).push(
                event_receives(*final(self).rx).last(),
            ),
            match got {
                Some(msg) => event_receives(*final(self).rx).last() == Receipt::Event(msg),
                None => is_end(event_receives(*final(self).rx).last(), old(self).wait),
            },
    {
        if self.wait {
            recv_event(self.rx)
        } else {
            event_in(try_recv_event(self.rx))
        }
    }
}

/// Passing on loses nothing: every event that was received was offered, in the order in which it
/// came, and nothing else was. If it succeeds, all were accepted and the last receive gave no event
/// at all; else the last event is the one that was not accepted.
pub proof fn law_passing_on_loses_nothing(
    seen: Seq<Receipt>,
    offered: Seq<(ServerMsg, bool)>,
    outcome: Result<(), ClientError>,
)
    requires
        forwarded(seen, offered, outcome),
    ensures
        forall|i: int|
            0 <= i < seen.len() && (#[trigger] seen[i]) is Event ==> i < offered.len()
                && offered[i].0 == seen[i]->Event_0,
        forall|i: int|
            0 <= i < offered.len() ==> i < seen.len() && seen[i] == Receipt::Event(
                (#[trigger] offered[i]).0,
            ),
        match outcome {
            Ok(_) => {
                &&& seen.len() == offered.len() + 1
                &&& !(seen[seen.len() - 1] is Event)
                &&& forall|i: int| 0 <= i < offered.len() ==> (#[trigger] offered[i]).1
            },
            Err(error) => {
                &&& seen.len() == offered.len()
                &&& error is Rejected || (error is Exhausted && seen.len() == u64::MAX)
                &&& error is Rejected ==> offered.len() > 0
                &&& forall|i: int|
                    0 <= i < offered.len() ==> ((#[trigger] offered[i]).1 <==> !(error is Rejected
                        && i == offered.len() - 1))
            },
        },
{
    if outcome == Err::<(), ClientError>(ClientError::Rejected) {
        assert forall|i: int| 0 <= i < offered.len() implies ((#[trigger] offered[i]).1 <==> i
            != offered.len() - 1) by {
            if i < offered.len() - 1 {
                assert(offered.drop_last()[i] == offered[i]);
            }
        }
    }
}

/// Passing on up to a tick loses nothing either: every event that was received was offered, in
/// order, and nothing else was. If it succeeds, the last event and no other is a tick; no tick is
/// ever passed by.
pub proof fn law_passing_on_stops_at_the_first_tick(
    seen: Seq<Receipt>,
    offered: Seq<(ServerMsg, bool)>,
    outcome: Result<(), ClientError>,
)
    requires
        forwarded_to_tick(seen, offered, outcome),
    ensures
        forall|i: int|
            0 <= i < seen.len() && (#[trigger] seen[i]) is Event ==> i < offered.len()
                && offered[i].0 == seen[i]->Event_0,
        forall|i: int|
            0 <= i < offered.len() ==> i < seen.len() && seen[i] == Receipt::Event(
                (#[trigger] offered[i]).0,
            ),
        forall|i: int|
            0 <= i < offered.len() - 1 ==> !((#[trigger] offered[i]).0.body matches Some(
                ServerMsgBody::Tick(_),
            )),
        match outcome {
            Ok(_) => {
                &&& seen.len() == offered.len()
                &&& offered.len() > 0
                &&& (offered[offered.len() - 1].0.body matches Some(ServerMsgBody::Tick(_)))
                &&& forall|i: int| 0 <= i < offered.len() ==> (#[trigger] offered[i]).1
            },
            Err(ClientError::Closed) => {
                &&& seen.len() == offered.len() + 1
                &&& seen[seen.len() - 1] is Closed
                &&& forall|i: int|
                    0 <= i < offered.len() ==> (#[trigger] offered[i]).1 && !(
                    offered[i].0.body matches Some(ServerMsgBody::Tick(_)))
            },
            Err(ClientError::Rejected) => {
                &&& seen.len() == offered.len()
                &&& offered.len() > 0
                &&& forall|i: int|
                    0 <= i < offered.len() ==> ((#[trigger] offered[i]).1 <==> i != offered.len()
                        - 1)
            },
            Err(ClientError::Exhausted) => seen.len() == offered.len() == u64::MAX,
        },
{
    assert forall|i: int| 0 <= i < offered.len() - 1 implies !((
    #[trigger] offered[i]).0.body matches Some(ServerMsgBody::Tick(_))) by {
        if seen.len() > 0 && !(outcome == Err::<(), ClientError>(ClientError::Exhausted)) {
            assert(seen.drop_last()[i] == seen[i]);
        } else {
            assert(seen[i] == Receipt::Event(offered[i].0));
        }
    }
    match outcome {
        Err(ClientError::Rejected) => {
            assert forall|i: int| 0 <= i < offered.len() implies ((#[trigger] offered[i]).1 <==> i
                != offered.len() - 1) by {
                if i < offered.len() - 1 {
                    assert(offered.drop_last()[i] == offered[i]);
                }
            }
        },
        Err(ClientError::Closed) => {
            assert forall|i: int| 0 <= i < offered.len() implies (#[trigger] offered[i]).1 && !(
            offered[i].0.body matches Some(ServerMsgBody::Tick(_))) by {
                assert(seen.drop_last()[i] == seen[i]);
            }
        },
        _ => {},
    }
}

/// A wait for a tick gives the first tick that comes, with nothing passed by but events that are
/// no ticks, and fails only if the connection is closed before one comes.
pub proof fn law_a_wait_gives_the_first_tick(
    seen: Seq<Receipt>,
    outcome: Result<Tick, ClientError>,
)
    requires
        tick_wait(seen, outcome),
    ensures
        forall|i: int|
            0 <= i < seen.len() - 1 ==> ((#[trigger] seen[i]) matches Receipt::Event(msg) && !(
            msg.body matches Some(ServerMsgBody::Tick(_)))),
        match outcome {
            Ok(tick) => seen.len() > 0 && seen[seen.len() - 1] == Receipt::Event(
                ServerMsg { body: Some(ServerMsgBody::Tick(tick)) },
            ),
            Err(error) => {
                ||| error is Closed && seen.len() > 0 && seen[seen.len() - 1] is Closed
                ||| error is Exhausted && seen.len() == u64::MAX
            },
        },
{
    assert forall|i: int| 0 <= i < seen.len() - 1 implies ((
    #[trigger] seen[i]) matches Receipt::Event(msg) && !(msg.body matches Some(
        ServerMsgBody::Tick(_),
    ))) by {
        if !(outcome == Err::<Tick, ClientError>(ClientError::Exhausted)) {
            assert(seen.drop_last()[i] == seen[i]);
        }
    }
}

/// A wait for a registration gives the id of the first registration that comes, and fails only if
/// the connection is closed before one comes.
pub proof fn law_a_wait_gives_the_first_registration(
    seen: Seq<Receipt>,
    outcome: Result<u64, ClientError>,
)
    requires
        registration_wait(seen, outcome),
    ensures
        forall|i: int|
            0 <= i < seen.len() - 1 ==> ((#[trigger] seen[i]) matches Receipt::Event(msg) && !(
            msg.body matches Some(ServerMsgBody::Registered(_)))),
        match outcome {
            Ok(client_id) => seen.len() > 0 && seen[seen.len() - 1] == Receipt::Event(
                ServerMsg {
                    body: Some(ServerMsgBody::Registered(RegisterResponse { client_id })),
                },
            ),
            Err(error) => {
                ||| error is Closed && seen.len() > 0 && seen[seen.len() - 1] is Closed
                ||| error is Exhausted && seen.len() == u64::MAX
            },
        },
{
    assert forall|i: int| 0 <= i < seen.len() - 1 implies ((
    #[trigger] seen[i]) matches Receipt::Event(msg) && !(msg.body matches Some(
        ServerMsgBody::Registered(_),
    ))) by {
        if !(outcome == Err::<u64, ClientError>(ClientError::Exhausted)) {
            assert(seen.drop_last()[i] == seen[i]);
        }
    }
}

/// Collecting loses nothing: every event that was received is among those collected, in order, and
/// nothing else is; unless there are too many, the last receive gave no event.
pub proof fn law_collecting_loses_nothing(seen: Seq<Receipt>, msgs: Seq<ServerMsg>)
    requires
        collected(seen, msgs),
    ensures
        forall|i: int|
            0 <= i < seen.len() && (#[trigger] seen[i]) is Event ==> i < msgs.len() && msgs[i]
                == seen[i]->Event_0,
        forall|i: int|
            0 <= i < msgs.len() ==> i < seen.len() && seen[i] == Receipt::Event(#[trigger] msgs[i]),
        msgs.len() < u64::MAX ==> seen.len() == msgs.len() + 1 && !(seen[seen.len() - 1] is Event),
{
}

/// Sending offers the very message, and does nothing else.
pub proof fn law_sending_offers_the_message(pre: Ends, msg: ClientMsg, accepted: bool, post: Ends)
    requires
        pre.sent(msg, accepted, post),
    ensures
        request_sends(post.to_server).len() == request_sends(pre.to_server).len() + 1,
        forall|i: int|
            0 <= i < request_sends(pre.to_server).len() ==> #[trigger] request_sends(
                post.to_server,
            )[i] == request_sends(pre.to_server)[i],
        request_sends(post.to_server)[request_sends(pre.to_server).len() as int] == (msg, accepted),
        requests_into(post.to_server) == requests_into(pre.to_server),
        event_receives(post.from_server) == event_receives(pre.from_server),
        events_from(post.from_server) == events_from(pre.from_server),
{
}

/// What was seen between two states of a client's ends is what the receives gave in between, and
/// all of it.
pub proof fn law_seen_is_what_was_received(pre: Ends, post: Ends)
    requires
        pre.only_received(post),
    ensures
        event_receives(post.from_server) == event_receives(pre.from_server) + pre.seen_by(post),
        request_sends(post.to_server) == request_sends(pre.to_server),
        events_from(post.from_server) == events_from(pre.from_server),
{
    assert(event_receives(post.from_server) =~= event_receives(pre.from_server) + pre.seen_by(
        post,
    ));
}

/// A client that steps offers one report and then waits: a report that is not accepted fails at
/// once and takes no event; one that is accepted gives the first tick that comes after it, or fails
/// when the connection is closed.
pub proof fn law_a_step_is_one_report_and_one_wait(
    pre: Ends,
    msg: ClientMsg,
    outcome: Result<Tick, ClientError>,
    post: Ends,
)
    requires
        pre.sent_and_waited(msg, outcome, post),
    ensures
        ({
            let before = request_sends(pre.to_server);
            let after = request_sends(post.to_server);
            let old_events = event_receives(pre.from_server);
            let new_events = event_receives(post.from_server);
            &&& after.len() == before.len() + 1
            &&& after[before.len() as int].0 == msg
            &&& forall|i: int| 0 <= i < before.len() ==> #[trigger] after[i] == before[i]
            &&& outcome == Err::<Tick, ClientError>(ClientError::Rejected)
                <==> !after[before.len() as int].1
            &&& !after[before.len() as int].1 ==> new_events == old_events
            &&& after[before.len() as int].1 ==> old_events.len() < new_events.len() && forall|
                i: int,
            |
                old_events.len() <= i < new_events.len() - 1 ==> ((
                #[trigger] new_events[i]) matches Receipt::Event(event) && !(
                event.body matches Some(ServerMsgBody::Tick(_))))
            &&& outcome matches Ok(tick) ==> new_events[new_events.len() - 1] == Receipt::Event(
                ServerMsg { body: Some(ServerMsgBody::Tick(tick)) },
            )
            &&& outcome == Err::<Tick, ClientError>(ClientError::Closed) ==> new_events[
            new_events.len() - 1] is Closed
        }),
{
    let before = request_sends(pre.to_server);
    let after = request_sends(post.to_server);
    let old_events = event_receives(pre.from_server);
    let new_events = event_receives(post.from_server);
    if after[before.len() as int].1 {
        let seen = pre.seen_by(post);
        law_a_wait_gives_the_first_tick(seen, outcome);
        assert(seen.len() == new_events.len() - old_events.len());
        assert(seen.len() > 0);
        assert(seen[seen.len() - 1] == new_events[new_events.len() - 1]);
        assert forall|i: int| old_events.len() <= i < new_events.len() - 1 implies ((
        #[trigger] new_events[i]) matches Receipt::Event(event) && !(event.body matches Some(
            ServerMsgBody::Tick(_),
        ))) by {
            assert(seen[i - old_events.len()] == new_events[i]);
        }
    }
}

/// What was offered between two states of a handle is all that was sent in between.
pub proof fn law_offered_is_what_was_sent(before: Seq<(ServerMsg, bool)>, tx: Sender<ServerMsg>)
    requires
        before.is_prefix_of(event_sends(tx)),
    ensures
        event_sends(tx) == before + offered_since(before, tx),
{
    assert(event_sends(tx) =~= before + offered_since(before, tx));
}

/// A receive ends a run of events only if it gave none, and for one who waits only if the
/// connection is closed.
pub proof fn law_events_end_only_without_an_event(
    receipt: Receipt,
    wait: bool,
    pre: Ends,
    post: Ends,
)
    ensures
        is_end(receipt, wait) <==> !(receipt is Event) && (wait ==> receipt is Closed),
        pre.only_received(post) && pre.seen_nothing(post) ==> {
            let before = event_receives(pre.from_server);
            let after = event_receives(post.from_server);
            &&& after.len() == before.len() + 1
            &&& !(after[before.len() as int] is Event)
        },
{
    if pre.only_received(post) && pre.seen_nothing(post) {
        let before = event_receives(pre.from_server);
        let after = event_receives(post.from_server);
        assert(pre.seen_by(post)[0] == after[before.len() as int]);
    }
}

} // verus!
