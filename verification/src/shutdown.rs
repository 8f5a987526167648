//! What a shutdown means for the clients: each of them gets the ticks that were sent before it,
//! and then an error.
//!
//! Whether a receive call gives an event or the end of the channel is decided by the channel. The
//! laws take it as a premise: once every sender of a channel is gone, what is received from it are
//! the events that were sent and then its end, as often as one asks.

use crate::barrier::barrier_met;
use crate::channel::{event_receives, event_sends, Receipt};
use crate::client::Downlink;
use crate::interface::{ClientMsg, ServerMsg, ServerMsgBody, Simulation, Tick};
use crate::link::{no_tick, received_since, tick_wait, ClientError, Ends, PATIENCE};
use crate::registry::{clients_in, participants};
use crate::server::{LoopStep, Server, SimLoop};
use crate::service::outgoing;
use crossbeam_channel::Sender;
use vstd::prelude::*;

verus! {

/// What is received from a channel that holds `msgs` and that nobody can send into any more: the
/// events in order, and then its end, here `ends` times.
pub open spec fn delivered(msgs: Seq<ServerMsg>, ends: nat) -> Seq<Receipt> {
    Seq::new(
        msgs.len() + ends,
        |i: int|
            if i < msgs.len() {
                Receipt::Event(msgs[i])
            } else {
                Receipt::Closed
            },
    )
}

/// The ticks among `msgs`, in order.
pub open spec fn ticks_in(msgs: Seq<ServerMsg>) -> Seq<Tick>
    decreases msgs.len(),
{
    if msgs.len() == 0 {
        Seq::empty()
    } else {
        let before = ticks_in(msgs.drop_last());
        match msgs.last().body {
            Some(ServerMsgBody::Tick(tick)) => before.push(tick),
            _ => before,
        }
    }
}

/// The events that were offered through `tx` so far.
pub open spec fn sent_through(tx: Sender<ServerMsg>) -> Seq<ServerMsg> {
    event_sends(tx).map_values(|entry: (ServerMsg, bool)| entry.0)
}

/// A client's report that it is ready, and what its wait for the tick came to.
pub struct Report {
    pub pre: Ends,
    pub msg: ClientMsg,
    pub outcome: Result<Tick, ClientError>,
    pub post: Ends,
}

impl Report {
    /// The server could not be told.
    pub open spec fn is_rejected(self) -> bool {
        self.outcome == Err::<Tick, ClientError>(ClientError::Rejected)
    }
}

/// `reports` are made one after the other.
pub open spec fn is_report_run(reports: Seq<Report>) -> bool {
    &&& forall|i: int|
        0 <= i < reports.len() ==> (#[trigger] reports[i]).pre.sent_and_waited(
            reports[i].msg,
            reports[i].outcome,
            reports[i].post,
        )
    &&& forall|i: int, j: int|
        0 <= i < reports.len() && j == i + 1 && j < reports.len() ==> (#[trigger] reports[j]).pre
            == (#[trigger] reports[i]).post
}

/// The ticks that the first `n` reports gave.
pub open spec fn ticks_given(reports: Seq<Report>, n: int) -> Seq<Tick>
    decreases n,
{
    if n <= 0 {
        Seq::empty()
    } else {
        let before = ticks_given(reports, n - 1);
        match reports[n - 1].outcome {
            Ok(tick) => before.push(tick),
            Err(_) => before,
        }
    }
}

/// Events without a tick add none.
proof fn lemma_no_ticks(msgs: Seq<ServerMsg>, a: int, b: int)
    requires
        0 <= a <= b <= msgs.len(),
        forall|i: int| a <= i < b ==> !(#[trigger] msgs[i]).is_tick(),
    ensures
        ticks_in(msgs.take(b)) == ticks_in(msgs.take(a)),
    decreases b - a,
{
    if a < b {
        lemma_no_ticks(msgs, a, b - 1);
        assert(msgs.take(b).drop_last() =~= msgs.take(b - 1));
        assert(!msgs[b - 1].is_tick());
    }
}

/// The ticks of the first events come first.
proof fn lemma_ticks_of_prefix(msgs: Seq<ServerMsg>, n: int)
    requires
        0 <= n <= msgs.len(),
    ensures
        ticks_in(msgs.take(n)).is_prefix_of(ticks_in(msgs)),
    decreases msgs.len() - n,
{
    let some = ticks_in(msgs.take(n));
    if n == msgs.len() {
        assert(msgs.take(n) =~= msgs);
        assert(some =~= some.subrange(0, some.len() as int));
    } else {
        lemma_ticks_of_prefix(msgs, n + 1);
        assert(msgs.take(n + 1).drop_last() =~= msgs.take(n));
        let more = ticks_in(msgs.take(n + 1));
        let all = ticks_in(msgs);
        assert(some =~= all.subrange(0, some.len() as int)) by {
            assert(more =~= all.subrange(0, more.len() as int));
            assert forall|i: int| 0 <= i < some.len() implies some[i] == all[i] by {
                assert(more[i] == some[i]);
                assert(more[i] == all.subrange(0, more.len() as int)[i]);
            }
        }
    }
}

/// The smaller of two positions.
spec fn at_most(p: int, len: nat) -> int {
    if p < len {
        p
    } else {
        len as int
    }
}

/// A wait that begins at position `p` of what a closed channel gives takes the next tick, or the
/// end of the channel if there is none.
proof fn lemma_wait_takes_the_next_tick(
    msgs: Seq<ServerMsg>,
    ends: nat,
    p: int,
    seen: Seq<Receipt>,
    outcome: Result<Tick, ClientError>,
)
    requires
        0 <= p,
        p + seen.len() <= msgs.len() + ends,
        msgs.len() + ends < PATIENCE,
        forall|i: int| 0 <= i < seen.len() ==> #[trigger] seen[i] == delivered(msgs, ends)[p + i],
        tick_wait(seen, outcome),
    ensures
        ({
            let before = ticks_in(msgs.take(at_most(p, msgs.len())));
            let after = ticks_in(msgs.take(at_most(p + seen.len(), msgs.len())));
            match outcome {
                Ok(tick) => after == before.push(tick),
                Err(error) => {
                    &&& error is Closed
                    &&& after == before
                    &&& before == ticks_in(msgs)
                },
            }
        }),
{
    let q = p + seen.len();
    let last = seen.len() - 1;
    assert(seen.last() == delivered(msgs, ends)[p + last]);
    assert(no_tick(seen.drop_last()));
    let from = at_most(p, msgs.len());
    let to = at_most(q - 1, msgs.len());
    assert forall|i: int| from <= i < to implies !(#[trigger] msgs[i]).is_tick() by {
        assert(seen.drop_last()[i - p] == seen[i - p]);
        assert(seen[i - p] == delivered(msgs, ends)[p + (i - p)]);
    }
    lemma_no_ticks(msgs, from, to);
    match outcome {
        Ok(tick) => {
            assert(q - 1 < msgs.len());
            assert(msgs[q - 1] == ServerMsg::of_tick(tick));
            assert(msgs.take(q).drop_last() =~= msgs.take(q - 1));
        },
        Err(_) => {
            assert(q - 1 >= msgs.len());
            assert(msgs.take(msgs.len() as int) =~= msgs);
        },
    }
}

/// The record of a client's receives only grows.
proof fn lemma_record_grows(reports: Seq<Report>, n: int)
    requires
        is_report_run(reports),
        0 <= n < reports.len(),
    ensures
        event_receives(reports[0].pre.from_server).is_prefix_of(
            event_receives(reports[n].pre.from_server),
        ),
        event_receives(reports[n].pre.from_server).is_prefix_of(
            event_receives(reports[n].post.from_server),
        ),
    decreases n,
{
    let here = event_receives(reports[n].pre.from_server);
    assert(here =~= here.subrange(0, here.len() as int));
    assert(reports[n].pre.sent_and_waited(reports[n].msg, reports[n].outcome, reports[n].post));
    if n > 0 {
        let m = n - 1;
        lemma_record_grows(reports, m);
        assert(reports[n].pre == reports[m].post);
        let start = event_receives(reports[0].pre.from_server);
        let before = event_receives(reports[m].pre.from_server);
        assert(start =~= here.subrange(0, start.len() as int)) by {
            assert forall|i: int| 0 <= i < start.len() implies start[i] == here[i] by {
                assert(before.subrange(0, start.len() as int)[i] == before[i]);
                assert(here.subrange(0, before.len() as int)[i] == here[i]);
            }
        }
    }
}

/// What a client has received since its first report is the beginning of what a closed channel
/// with `msgs` gives.
pub open spec fn receives_the_rest(
    reports: Seq<Report>,
    n: int,
    msgs: Seq<ServerMsg>,
    ends: nat,
) -> bool {
    let start = event_receives(reports[0].pre.from_server);
    let got = received_since(start, reports[n].post.from_server);
    &&& got.len() <= msgs.len() + ends
    &&& forall|i: int| 0 <= i < got.len() ==> #[trigger] got[i] == delivered(msgs, ends)[i]
}

/// After `n` reports a client has the ticks among what it has received.
proof fn lemma_given_are_received(reports: Seq<Report>, n: int, msgs: Seq<ServerMsg>, ends: nat)
    requires
        is_report_run(reports),
        0 <= n < reports.len(),
        receives_the_rest(reports, n, msgs, ends),
        msgs.len() + ends < PATIENCE,
    ensures
        ({
            let start = event_receives(reports[0].pre.from_server).len();
            let p = event_receives(reports[n].pre.from_server).len() - start;
            let q = event_receives(reports[n].post.from_server).len() - start;
            &&& 0 <= p <= q
            &&& ticks_given(reports, n) == ticks_in(msgs.take(at_most(p, msgs.len())))
            &&& ticks_given(reports, n + 1) == ticks_in(msgs.take(at_most(q, msgs.len())))
            &&& match reports[n].outcome {
                Ok(tick) => ticks_in(msgs.take(at_most(q, msgs.len()))) == ticks_given(
                    reports,
                    n,
                ).push(tick),
                Err(_) => reports[n].is_rejected() || {
                    &&& reports[n].outcome == Err::<Tick, ClientError>(ClientError::Closed)
                    &&& ticks_given(reports, n) == ticks_in(msgs)
                },
            }
        }),
    decreases n,
{
    let report = reports[n];
    let first = event_receives(reports[0].pre.from_server);
    let here = event_receives(report.pre.from_server);
    let there = event_receives(report.post.from_server);
    let got = received_since(first, report.post.from_server);
    lemma_record_grows(reports, n);
    assert(report.pre.sent_and_waited(report.msg, report.outcome, report.post));
    if n > 0 {
        let m = n - 1;
        assert(report.pre == reports[m].post);
        lemma_record_grows(reports, m);
        let earlier = received_since(first, reports[m].post.from_server);
        assert forall|i: int| 0 <= i < earlier.len() implies #[trigger] earlier[i] == delivered(
            msgs,
            ends,
        )[i] by {
            assert(there.subrange(0, here.len() as int)[first.len() + i] == there[first.len() + i]);
            assert(got[i] == earlier[i]);
        }
        lemma_given_are_received(reports, m, msgs, ends);
    } else {
        assert(msgs.take(0) =~= Seq::<ServerMsg>::empty());
    }
    let p = here.len() - first.len();
    if !report.is_rejected() {
        let seen = report.pre.seen_by(report.post);
        assert forall|i: int| 0 <= i < seen.len() implies #[trigger] seen[i] == delivered(
            msgs,
            ends,
        )[p + i] by {
            assert(seen[i] == got[p + i]);
        }
        lemma_wait_takes_the_next_tick(msgs, ends, p, seen, report.outcome);
    }
}

/// A client that reports over and over to a server that has dropped it gets the ticks that are
/// left for it, one with each report, and after them nothing but errors. This holds of a report
/// that was made before the drop, of one that is made later, and of one that does not get through
/// at all, which is an error at once.
pub proof fn law_ticks_left_then_errors(
    reports: Seq<Report>,
    n: int,
    msgs: Seq<ServerMsg>,
    ends: nat,
)
    requires
        is_report_run(reports),
        0 <= n < reports.len(),
        receives_the_rest(reports, n, msgs, ends),
        msgs.len() + ends < PATIENCE,
    ensures
        match reports[n].outcome {
            Ok(tick) => {
                let k = ticks_given(reports, n).len();
                k < ticks_in(msgs).len() && tick == ticks_in(msgs)[k as int]
            },
            Err(error) => {
                ||| error is Rejected
                ||| error is Closed && ticks_given(reports, n) == ticks_in(msgs)
            },
        },
        ticks_given(reports, n) == ticks_in(msgs) ==> reports[n].outcome is Err,
{
    lemma_given_are_received(reports, n, msgs, ends);
    if let Ok(tick) = reports[n].outcome {
        let start = event_receives(reports[0].pre.from_server).len();
        let q = event_receives(reports[n].post.from_server).len() - start;
        let to = at_most(q, msgs.len());
        lemma_ticks_of_prefix(msgs, to);
        let given = ticks_given(reports, n);
        let all = ticks_in(msgs);
        let upto = ticks_in(msgs.take(to));
        assert(upto[given.len() as int] == tick);
        assert(upto == all.subrange(0, upto.len() as int));
    }
}

/// One look at what the server has for a remote client: what the receive gave, and what is left
/// of the client's direction of the stream.
pub struct StreamTurn {
    pub receipt: Receipt,
    pub pre: Downlink,
    pub rest: Option<Downlink>,
}

impl StreamTurn {
    /// What the server sends arrives at the other end.
    pub open spec fn is_valid(self) -> bool {
        match outgoing(self.receipt) {
            Some(item) => self.pre.took(item, self.rest),
            None => self.rest == Some(self.pre),
        }
    }
}

/// `turns` follow one another.
pub open spec fn is_stream_run(turns: Seq<StreamTurn>) -> bool {
    &&& forall|i: int| 0 <= i < turns.len() ==> (#[trigger] turns[i]).is_valid()
    &&& forall|i: int, j: int|
        0 <= i < turns.len() && j == i + 1 && j < turns.len() ==> (#[trigger] turns[i]).rest
            == Some((#[trigger] turns[j]).pre)
}

/// The events that the first `n` turns took from the server.
pub open spec fn taken(turns: Seq<StreamTurn>, n: int) -> Seq<ServerMsg>
    decreases n,
{
    if n <= 0 {
        Seq::empty()
    } else {
        let before = taken(turns, n - 1);
        match turns[n - 1].receipt {
            Receipt::Event(msg) => before.push(msg),
            _ => before,
        }
    }
}

/// The stream hands on to the client what it took from the server, in order. When the server has
/// dropped the client, the client's direction is given up, and not before.
pub proof fn law_stream_hands_on_everything(turns: Seq<StreamTurn>, n: int)
    requires
        is_stream_run(turns),
        0 <= n < turns.len(),
    ensures
        sent_through(turns[n].pre.events) == sent_through(turns[0].pre.events) + taken(turns, n),
        turns[n].rest is None <==> turns[n].receipt is Closed,
    decreases n,
{
    assert(turns[n].is_valid());
    if n == 0 {
        let sent = sent_through(turns[0].pre.events);
        assert(sent + taken(turns, 0) =~= sent);
    } else {
        let m = n - 1;
        law_stream_hands_on_everything(turns, m);
        assert(turns[m].is_valid());
        assert(turns[m].rest == Some(turns[n].pre));
        let start = sent_through(turns[0].pre.events);
        let before = sent_through(turns[m].pre.events);
        let after = sent_through(turns[n].pre.events);
        match turns[m].receipt {
            Receipt::Event(msg) => {
                assert(after =~= before.push(msg));
                assert(after =~= start + taken(turns, n));
            },
            _ => {},
        }
    }
}

/// A server that was told to shut down stops its loop at the next look at the clients. The end of
/// the loop leaves no client, and so no tick is given any more, whoever had reported.
pub proof fn law_shutdown_stops_the_loop<S: Simulation>(
    server: Server<S>,
    pre: SimLoop,
    step: LoopStep,
    post: SimLoop,
    end: Server<S>,
    ready: Set<u64>,
)
    requires
        server.shutdown_flag,
        server.refreshed(pre, step, post),
        server.finished(end),
    ensures
        step is Stop,
        clients_in(end.clients).dom() == Set::<u64>::empty(),
        !barrier_met(ready, clients_in(end.clients)),
{
    assert(participants(clients_in(end.clients)) =~= Set::<u64>::empty());
}

/// A shutdown reaches every client in the process of the server. Such a client gets the ticks
/// that the server offered it before the shutdown and that it has not taken yet; then each of its
/// reports, also one that it has already made and waits on, is answered with an error.
pub proof fn law_shutdown_reaches_local_clients<S: Simulation>(
    server: Server<S>,
    pre: SimLoop,
    step: LoopStep,
    post: SimLoop,
    end: Server<S>,
    id: u64,
    reports: Seq<Report>,
    n: int,
    ends: nat,
)
    requires
        server.shutdown_flag,
        server.refreshed(pre, step, post),
        server.finished(end),
        clients_in(server.clients).dom().contains(id),
        is_report_run(reports),
        0 <= n < reports.len(),
        receives_the_rest(
            reports,
            n,
            sent_through(clients_in(server.clients)[id].outbound_tx).skip(
                event_receives(reports[0].pre.from_server).len() as int,
            ),
            ends,
        ),
        event_receives(reports[0].pre.from_server).len() <= sent_through(
            clients_in(server.clients)[id].outbound_tx,
        ).len(),
        sent_through(clients_in(server.clients)[id].outbound_tx).len() + ends < PATIENCE,
    ensures
        step is Stop,
        !clients_in(end.clients).dom().contains(id),
        ({
            let left = ticks_in(
                sent_through(clients_in(server.clients)[id].outbound_tx).skip(
                    event_receives(reports[0].pre.from_server).len() as int,
                ),
            );
            let k = ticks_given(reports, n).len();
            &&& ticks_given(reports, n) == left ==> reports[n].outcome is Err
            &&& reports[n].outcome matches Ok(tick) ==> k < left.len() && tick == left[k as int]
            &&& reports[n].outcome == Err::<Tick, ClientError>(ClientError::Closed)
                ==> ticks_given(reports, n) == left
        }),
{
    law_shutdown_stops_the_loop(server, pre, step, post, end, Set::empty());
    let left = sent_through(clients_in(server.clients)[id].outbound_tx).skip(
        event_receives(reports[0].pre.from_server).len() as int,
    );
    law_ticks_left_then_errors(reports, n, left, ends);
}

/// A shutdown reaches every remote client. Its stream hands on what the server offered the client
/// before the shutdown and then gives up the client's direction. So the client gets the ticks
/// that it has not taken yet; then each of its reports, also one that it has already made and
/// waits on, is answered with an error.
pub proof fn law_shutdown_reaches_remote_clients<S: Simulation>(
    server: Server<S>,
    pre: SimLoop,
    step: LoopStep,
    post: SimLoop,
    end: Server<S>,
    id: u64,
    turns: Seq<StreamTurn>,
    reports: Seq<Report>,
    n: int,
    ends: nat,
)
    requires
        server.shutdown_flag,
        server.refreshed(pre, step, post),
        server.finished(end),
        clients_in(server.clients).dom().contains(id),
        is_stream_run(turns),
        turns.len() > 0,
        event_sends(turns[0].pre.events).len() == 0,
        turns.last().receipt is Closed,
        taken(turns, turns.len() - 1) == sent_through(
            clients_in(server.clients)[id].outbound_tx,
        ),
        is_report_run(reports),
        0 <= n < reports.len(),
        receives_the_rest(
            reports,
            n,
            sent_through(turns.last().pre.events).skip(
                event_receives(reports[0].pre.from_server).len() as int,
            ),
            ends,
        ),
        event_receives(reports[0].pre.from_server).len() <= sent_through(
            turns.last().pre.events,
        ).len(),
        sent_through(turns.last().pre.events).len() + ends < PATIENCE,
    ensures
        step is Stop,
        !clients_in(end.clients).dom().contains(id),
        turns.last().rest is None,
        ({
            let left = ticks_in(
                sent_through(clients_in(server.clients)[id].outbound_tx).skip(
                    event_receives(reports[0].pre.from_server).len() as int,
                ),
            );
            let k = ticks_given(reports, n).len();
            &&& ticks_given(reports, n) == left ==> reports[n].outcome is Err
            &&& reports[n].outcome matches Ok(tick) ==> k < left.len() && tick == left[k as int]
            &&& reports[n].outcome == Err::<Tick, ClientError>(ClientError::Closed)
                ==> ticks_given(reports, n) == left
        }),
{
    law_shutdown_stops_the_loop(server, pre, step, post, end, Set::empty());
    law_stream_hands_on_everything(turns, turns.len() - 1);
    assert(sent_through(turns.last().pre.events) =~= sent_through(
        clients_in(server.clients)[id].outbound_tx,
    ));
    let left = sent_through(turns.last().pre.events).skip(
        event_receives(reports[0].pre.from_server).len() as int,
    );
    law_ticks_left_then_errors(reports, n, left, ends);
}

} // verus!
