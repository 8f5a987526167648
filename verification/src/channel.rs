//! The channels between the server and its clients.
//!
//! Requests (`ClientMsg`) and events (`ServerMsg`) travel over channels of the crate
//! `crossbeam_channel`. Other threads hold the far ends, so no contract can say whether a
//! message is accepted or what comes in. What is stated of a handle is which channel it belongs
//! to and which calls have been made through it, each with its outcome. The functions take
//! handles by `&mut` so that a call can extend that record.

use crate::interface::{ClientMsg, ServerMsg};
use crate::registry::{clients_in, ClientInfo};
use crossbeam_channel::{Receiver, Select, Sender, TryRecvError};
use dashmap::DashMap;
use std::collections::HashMap;
use std::time::Duration;
use vstd::prelude::*;

verus! {

/// The sending side of a channel.
#[verifier::external_type_specification]
#[verifier::external_body]
#[verifier::reject_recursive_types(T)]
pub struct ExSender<T>(crossbeam_channel::Sender<T>);

/// The receiving side of a channel.
#[verifier::external_type_specification]
#[verifier::external_body]
#[verifier::reject_recursive_types(T)]
pub struct ExReceiver<T>(crossbeam_channel::Receiver<T>);

/// A channel, as its handles see it.
pub struct Lane {
    /// Tells the channel from others.
    pub id: int,
    /// How many messages it holds at most, if there is a limit.
    pub capacity: Option<nat>,
}

/// The channel that `tx` sends requests into.
pub uninterp spec fn requests_into(tx: Sender<ClientMsg>) -> Lane;

/// The channel that `rx` takes requests from.
pub uninterp spec fn requests_from(rx: Receiver<ClientMsg>) -> Lane;

/// The channel that `tx` sends events into.
pub uninterp spec fn events_into(tx: Sender<ServerMsg>) -> Lane;

/// The channel that `rx` takes events from.
pub uninterp spec fn events_from(rx: Receiver<ServerMsg>) -> Lane;

/// The requests offered through the handle `tx` so far, each with whether it was accepted.
pub uninterp spec fn request_sends(tx: Sender<ClientMsg>) -> Seq<(ClientMsg, bool)>;

/// The outcomes of the receive calls on the handle `rx` so far: a request, or none.
pub uninterp spec fn request_receives(rx: Receiver<ClientMsg>) -> Seq<Option<ClientMsg>>;

/// The waits on several handles at once that the handle `rx` took part in so far, each by its
/// timeout in milliseconds.
pub uninterp spec fn request_waits(rx: Receiver<ClientMsg>) -> Seq<u64>;

/// The events offered through the handle `tx` so far, each with whether it was accepted.
pub uninterp spec fn event_sends(tx: Sender<ServerMsg>) -> Seq<(ServerMsg, bool)>;

/// What a receive call on a channel of events came to.
pub enum Receipt {
    /// This event.
    Event(ServerMsg),
    /// There was no event, and none can come any more: the channel is closed.
    Closed,
    /// The call did not wait, and there was no event yet.
    Nothing,
}

/// What the receive calls on the handle `rx` came to so far.
pub uninterp spec fn event_receives(rx: Receiver<ServerMsg>) -> Seq<Receipt>;

/// The channel that `tx` sends signals into.
pub uninterp spec fn signals_into(tx: Sender<()>) -> Lane;

/// The channel that `rx` takes signals from.
pub uninterp spec fn signals_from(rx: Receiver<()>) -> Lane;

/// The outcomes of the attempts to signal through the handle `tx` so far: whether there was room.
pub uninterp spec fn signal_attempts(tx: Sender<()>) -> Seq<bool>;

/// The outcomes of the waits on the handle `rx` so far: whether a signal came.
pub uninterp spec fn signal_waits(rx: Receiver<()>) -> Seq<bool>;

/// The requests of none of `clients` travel over the channel of `tx`.
pub open spec fn requests_apart(clients: Map<u64, ClientInfo>, tx: Sender<ClientMsg>) -> bool {
    forall|id: u64| #[trigger]
        clients.dom().contains(id) ==> requests_from(clients[id].inbound_rx) != requests_into(tx)
}

/// The events for none of `clients` travel over the channel of `rx`.
pub open spec fn events_apart(clients: Map<u64, ClientInfo>, rx: Receiver<ServerMsg>) -> bool {
    forall|id: u64| #[trigger]
        clients.dom().contains(id) ==> events_into(clients[id].outbound_tx) != events_from(rx)
}

/// None of `others` sends into the channel of `rx`.
pub open spec fn out_apart(others: Map<u64, Sender<ServerMsg>>, rx: Receiver<ServerMsg>) -> bool {
    forall|id: u64| #[trigger]
        others.dom().contains(id) ==> events_into(others[id]) != events_from(rx)
}

/// Calls `crossbeam_channel::unbounded` for requests: the two handles belong to one channel
/// without a limit, and nothing has passed through either. Each call makes a channel of its own:
/// it is none of those that the clients in `beside` are heard on, whose handles are in use.
#[verifier::external_body]
pub(crate) fn unbounded_requests(beside: Option<&DashMap<u64, ClientInfo>>) -> (ends: (
    Sender<ClientMsg>,
    Receiver<ClientMsg>,
))
    ensures
        beside matches Some(clients) ==> requests_apart(clients_in(*clients), ends.0),
        requests_into(ends.0) == requests_from(ends.1),
        requests_into(ends.0).capacity is None,
        request_sends(ends.0) == Seq::<(ClientMsg, bool)>::empty(),
        request_receives(ends.1) == Seq::<Option<ClientMsg>>::empty(),
        request_waits(ends.1) == Seq::<u64>::empty(),
{
    crossbeam_channel::unbounded::<ClientMsg>()
}

/// Calls `crossbeam_channel::bounded` for requests: the two handles belong to one channel that
/// holds at most `capacity` messages, and nothing has passed through either. A capacity that
/// cannot be allocated makes the call panic, so large ones are left out.
#[verifier::external_body]
pub(crate) fn bounded_requests(capacity: usize) -> (ends: (
    Sender<ClientMsg>,
    Receiver<ClientMsg>,
))
    requires
        capacity <= 1024,
    ensures
        requests_into(ends.0) == requests_from(ends.1),
        requests_into(ends.0).capacity == Some(capacity as nat),
        request_sends(ends.0) == Seq::<(ClientMsg, bool)>::empty(),
        request_receives(ends.1) == Seq::<Option<ClientMsg>>::empty(),
        request_waits(ends.1) == Seq::<u64>::empty(),
{
    crossbeam_channel::bounded::<ClientMsg>(capacity)
}

/// Calls `crossbeam_channel::unbounded` for events, as `unbounded_requests` does for requests.
#[verifier::external_body]
pub(crate) fn unbounded_events(beside: Option<&DashMap<u64, ClientInfo>>) -> (ends: (
    Sender<ServerMsg>,
    Receiver<ServerMsg>,
))
    ensures
        beside matches Some(clients) ==> events_apart(clients_in(*clients), ends.1),
        events_into(ends.0) == events_from(ends.1),
        events_into(ends.0).capacity is None,
        event_sends(ends.0) == Seq::<(ServerMsg, bool)>::empty(),
        event_receives(ends.1) == Seq::<Receipt>::empty(),
{
    crossbeam_channel::unbounded::<ServerMsg>()
}

/// Calls `crossbeam_channel::bounded` for events, as `bounded_requests` does for requests. The
/// new channel is none of those that the handles in `beside` are on.
#[verifier::external_body]
pub(crate) fn bounded_events(
    capacity: usize,
    beside: Option<&HashMap<u64, Sender<ServerMsg>>>,
) -> (ends: (Sender<ServerMsg>, Receiver<ServerMsg>))
    requires
        capacity <= 1024,
    ensures
        beside matches Some(others) ==> out_apart(others@, ends.1),
        events_into(ends.0) == events_from(ends.1),
        events_into(ends.0).capacity == Some(capacity as nat),
        event_sends(ends.0) == Seq::<(ServerMsg, bool)>::empty(),
        event_receives(ends.1) == Seq::<Receipt>::empty(),
{
    crossbeam_channel::bounded::<ServerMsg>(capacity)
}

/// Calls `Sender::send` of `crossbeam_channel` with `msg`: it waits while the channel is full,
/// and fails once every receiver is gone. The result says whether the message was accepted,
/// which other threads decide.
#[verifier::external_body]
pub(crate) fn send_request(tx: &mut Sender<ClientMsg>, msg: ClientMsg) -> (accepted: bool)
    ensures
        requests_into(*final(tx)) == requests_into(*old(tx)),
        request_sends(*final(tx)) == request_sends(*old(tx)).push((msg, accepted)),
{
    tx.send(msg).is_ok()
}

/// Calls `Sender::send` of `crossbeam_channel` with `msg`, as `send_request` does for requests.
#[verifier::external_body]
pub(crate) fn send_event(tx: &mut Sender<ServerMsg>, msg: ServerMsg) -> (accepted: bool)
    ensures
        events_into(*final(tx)) == events_into(*old(tx)),
        event_sends(*final(tx)) == event_sends(*old(tx)).push((msg, accepted)),
{
    tx.send(msg).is_ok()
}

/// Calls `Receiver::recv` of `crossbeam_channel`: it waits for a request, and gives none once
/// the channel is empty and every sender is gone. Other threads decide what comes.
#[verifier::external_body]
pub(crate) fn recv_request(rx: &mut Receiver<ClientMsg>) -> (got: Option<ClientMsg>)
    ensures
        requests_from(*final(rx)) == requests_from(*old(rx)),
        request_receives(*final(rx)) == request_receives(*old(rx)).push(got),
        request_waits(*final(rx)) == request_waits(*old(rx)),
{
    rx.recv().ok()
}

/// Calls `Receiver::recv` of `crossbeam_channel`, as `recv_request` does for requests.
#[verifier::external_body]
pub(crate) fn recv_event(rx: &mut Receiver<ServerMsg>) -> (got: Option<ServerMsg>)
    ensures
        events_from(*final(rx)) == events_from(*old(rx)),
        event_receives(*final(rx)) == event_receives(*old(rx)).push(
            match got {
                Some(msg) => Receipt::Event(msg),
                None => Receipt::Closed,
            },
        ),
{
    rx.recv().ok()
}

/// Calls `Receiver::try_recv` of `crossbeam_channel`: it does not wait. It gives an event if one
/// is there, and else says whether the channel is only empty or every sender is gone as well.
/// Other threads decide which.
#[verifier::external_body]
pub(crate) fn try_recv_event(rx: &mut Receiver<ServerMsg>) -> (got: Receipt)
    ensures
        events_from(*final(rx)) == events_from(*old(rx)),
        event_receives(*final(rx)) == event_receives(*old(rx)).push(got),
{
    match rx.try_recv() {
        Ok(msg) => Receipt::Event(msg),
        Err(TryRecvError::Empty) => Receipt::Nothing,
        Err(TryRecvError::Disconnected) => Receipt::Closed,
    }
}

/// Calls `crossbeam_channel::bounded` for bare signals, as `bounded_requests` does for requests.
#[verifier::external_body]
pub(crate) fn bounded_signals(capacity: usize) -> (ends: (Sender<()>, Receiver<()>))
    requires
        capacity <= 1024,
    ensures
        signals_into(ends.0) == signals_from(ends.1),
        signals_into(ends.0).capacity == Some(capacity as nat),
        signal_attempts(ends.0) == Seq::<bool>::empty(),
        signal_waits(ends.1) == Seq::<bool>::empty(),
{
    crossbeam_channel::bounded::<()>(capacity)
}

/// Calls `Sender::try_send` of `crossbeam_channel` on a channel of bare signals: it does not
/// wait. The result says whether the signal was accepted, which fails when the channel is full
/// or its receivers are gone.
#[verifier::external_body]
pub(crate) fn try_signal(tx: &mut Sender<()>) -> (accepted: bool)
    ensures
        signals_into(*final(tx)) == signals_into(*old(tx)),
        signal_attempts(*final(tx)) == signal_attempts(*old(tx)).push(accepted),
{
    tx.try_send(()).is_ok()
}

/// Calls `Receiver::recv` of `crossbeam_channel` on a channel of bare signals. The result says
/// whether a signal came or the sender is gone.
#[verifier::external_body]
pub(crate) fn wait_signal(rx: &mut Receiver<()>) -> (came: bool)
    ensures
        signals_from(*final(rx)) == signals_from(*old(rx)),
        signal_waits(*final(rx)) == signal_waits(*old(rx)).push(came),
{
    rx.recv().is_ok()
}

/// Calls `Clone::clone` of `crossbeam_channel::Sender`: another handle on the same channel,
/// with nothing sent through it.
#[verifier::external_body]
pub(crate) fn clone_request_sender(tx: &Sender<ClientMsg>) -> (copy: Sender<ClientMsg>)
    ensures
        requests_into(copy) == requests_into(*tx),
        request_sends(copy) == Seq::<(ClientMsg, bool)>::empty(),
{
    tx.clone()
}

/// Calls `Clone::clone` of `crossbeam_channel::Receiver`: another handle on the same channel,
/// with nothing received through it.
#[verifier::external_body]
pub(crate) fn clone_request_receiver(rx: &Receiver<ClientMsg>) -> (copy: Receiver<ClientMsg>)
    ensures
        requests_from(copy) == requests_from(*rx),
        request_receives(copy) == Seq::<Option<ClientMsg>>::empty(),
        request_waits(copy) == Seq::<u64>::empty(),
{
    rx.clone()
}

/// Calls `Clone::clone` of `crossbeam_channel::Sender`, as `clone_request_sender` does for
/// requests.
#[verifier::external_body]
pub(crate) fn clone_event_sender(tx: &Sender<ServerMsg>) -> (copy: Sender<ServerMsg>)
    ensures
        events_into(copy) == events_into(*tx),
        event_sends(copy) == Seq::<(ServerMsg, bool)>::empty(),
{
    tx.clone()
}

/// Calls `Clone::clone` of `crossbeam_channel::Receiver`, as `clone_request_receiver` does for
/// requests.
#[verifier::external_body]
pub(crate) fn clone_event_receiver(rx: &Receiver<ServerMsg>) -> (copy: Receiver<ServerMsg>)
    ensures
        events_from(copy) == events_from(*rx),
        event_receives(copy) == Seq::<Receipt>::empty(),
{
    rx.clone()
}

/// Waits on all of `receivers` at once with `Select` of `crossbeam_channel`: registers each with
/// `Select::recv`, in order, so that its position is its operation index; waits with
/// `Select::select_timeout`; and completes the selected operation with
/// `SelectedOperation::recv` on the receiver at `SelectedOperation::index`. These calls stand
/// together because an operation that is not completed, or is completed on another reference,
/// makes them panic.
///
/// The result is the position of the receiver that was ready with what it gave, where none means
/// that every sender is gone; or none at all after `timeout_ms` milliseconds. Which receiver is
/// picked when several are ready is left open. The call is for at least one receiver: without any
/// it would do nothing but sleep, and may panic at that. Every receiver takes part in the wait;
/// nothing is taken from any but the one that was picked.
#[verifier::external_body]
pub(crate) fn select_request(receivers: &mut Vec<Receiver<ClientMsg>>, timeout_ms: u64) -> (ready:
    Option<(usize, Option<ClientMsg>)>)
    requires
        old(receivers)@.len() > 0,
    ensures
        final(receivers)@.len() == old(receivers)@.len(),
        forall|i: int|
            0 <= i < old(receivers)@.len() ==> requests_from(#[trigger] final(receivers)@[i])
                == requests_from(old(receivers)@[i]),
        ready matches Some((index, got)) ==> index < old(receivers)@.len(),
        forall|i: int|
            0 <= i < old(receivers)@.len() ==> request_receives(#[trigger] final(receivers)@[i])
                == match ready {
                Some((index, got)) if index == i => request_receives(old(receivers)@[i]).push(got),
                _ => request_receives(old(receivers)@[i]),
            },
        forall|i: int|
            0 <= i < old(receivers)@.len() ==> request_waits(#[trigger] final(receivers)@[i])
                == request_waits(old(receivers)@[i]).push(timeout_ms),
{
    let mut select = Select::new();
    for receiver in receivers.iter() {
        select.recv(receiver);
    }
    match select.select_timeout(Duration::from_millis(timeout_ms)) {
        Ok(operation) => {
            let index: usize = operation.index();
            Some((index, operation.recv(&receivers[index]).ok()))
        },
        Err(_) => None,
    }
}

} // verus!
