use crossbeam_channel::TryRecvError;
use lockstep::client::StreamItem;
use lockstep::coordinator::{
    command, create_custom_server, create_local_server, create_remote_server, create_server, Cmd,
    Coordinator, Reply, SimSvc,
};
use lockstep::interface::{
    ClientMsg, ClientMsgBody, RegisterRequest, ServerMsg, Shutdown, SimError, Simulation,
    StepReady, Tick,
};
use lockstep::link::ClientError;
use lockstep::server::ServerMode;
use lockstep::simulator::MySim;
use lockstep::sync_client::{connect_local, connect_remote, SyncSimClient};

/// Answers a message of client 0 with an error, and of client n with n messages.
struct EchoSim;

impl Simulation for EchoSim {
    fn handle_message(&mut self, msg: ClientMsg) -> Result<Vec<ServerMsg>, SimError> {
        if msg.client_id == 0 {
            return Err(SimError { message: "who?".to_string() });
        }
        Ok((0..msg.client_id).map(ServerMsg::registered).collect())
    }

    fn step(&mut self) -> Result<(), SimError> {
        Ok(())
    }

    fn get_tick(&self) -> Tick {
        Tick { seq: 0, time_bits: 0 }
    }
}

fn tick(seq: u64) -> Tick {
    Tick { seq, time_bits: 0 }
}

fn register(step_participant: bool) -> ClientMsg {
    let request = RegisterRequest { client_name: "c".to_string(), step_participant };
    ClientMsg { client_id: 0, body: Some(ClientMsgBody::Register(request)) }
}

fn ready(client_id: u64) -> ClientMsg {
    ClientMsg { client_id, body: Some(ClientMsgBody::StepReady(StepReady {})) }
}

#[test]
fn contributors_step_together() {
    let mut coord = Coordinator::spawn(MySim);
    let (a, rx_a) = coord.register("a", true);
    let (b, rx_b) = coord.register("b", true);
    let (viewer, rx_viewer) = coord.register("viewer", false);
    assert_eq!((a, b, viewer), (1, 2, 3));
    assert_eq!(coord.step_ready(viewer), None);
    assert_eq!(coord.step_ready(a), None);
    assert_eq!(coord.step_ready(a), None);
    assert_eq!(coord.step_ready(9), None);
    assert_eq!(coord.step_ready(b), Some(tick(1)));
    for rx in [&rx_a, &rx_b, &rx_viewer] {
        assert_eq!(rx.try_recv().unwrap(), ServerMsg::tick(tick(1)));
        assert!(rx.try_recv().is_err());
    }
    assert_eq!(coord.step_ready(b), None);
    assert_eq!(coord.step_ready(a), Some(tick(2)));
}

#[test]
fn leaving_is_not_a_report() {
    let mut coord = Coordinator::spawn(MySim);
    let (a, _rx_a) = coord.register("a", true);
    let (b, rx_b) = coord.register("b", true);
    assert_eq!(coord.step_ready(a), None);
    coord.remove(b);
    assert!(rx_b.recv().is_err());
    assert_eq!(coord.step_ready(a), Some(tick(1)));
    coord.remove(b);
    let (c, _rx_c) = coord.register("c", true);
    assert_eq!(c, 3);
}

#[test]
fn answers_and_errors_are_broadcast() {
    let mut coord = Coordinator::spawn(EchoSim);
    let (_, rx_a) = coord.register("a", true);
    let (_, rx_b) = coord.register("b", false);
    coord.send_message(ClientMsg { client_id: 2, body: None });
    coord.send_message(ClientMsg { client_id: 0, body: None });
    for rx in [&rx_a, &rx_b] {
        assert_eq!(rx.try_recv().unwrap(), ServerMsg::registered(0));
        assert_eq!(rx.try_recv().unwrap(), ServerMsg::registered(1));
        assert_eq!(rx.try_recv().unwrap(), ServerMsg::error("sim error: who?".to_string()));
        assert!(rx.try_recv().is_err());
    }
}

#[test]
fn nothing_happens_after_a_shutdown() {
    let mut coord = Coordinator::spawn(EchoSim);
    let (a, rx) = coord.register("a", true);
    assert!(matches!(coord.handle(Cmd::Shutdown), Reply::Done));
    assert!(!coord.running);
    assert!(rx.recv().is_err());
    assert_eq!(coord.step_ready(a), None);
    coord.send_message(ClientMsg { client_id: 1, body: None });
    coord.remove(a);
    assert_eq!(coord.tick_seq, 0);
    assert_eq!(coord.next_id, 1);
}

#[test]
fn commands_are_handled_like_the_methods() {
    let mut coord = Coordinator::spawn(MySim);
    let join = Cmd::Register { name: "a".to_string(), contributing: true };
    let Reply::Registered(1, rx) = coord.handle(join) else { panic!("not registered") };
    let reply = coord.handle(Cmd::StepReady { client_id: 1 });
    assert!(matches!(reply, Reply::Ticked(Tick { seq: 1, .. })));
    let msg = ClientMsg { client_id: 1, body: None };
    assert!(matches!(coord.handle(Cmd::Message { msg }), Reply::Done));
    assert!(matches!(coord.handle(Cmd::Remove { client_id: 1 }), Reply::Done));
    assert!(matches!(coord.handle(Cmd::StepReady { client_id: 1 }), Reply::Done));
    let events: Vec<ServerMsg> = rx.iter().collect();
    assert_eq!(events, vec![ServerMsg::tick(tick(1)), ServerMsg::error("OK".to_string())]);
}

#[test]
fn messages_amount_to_commands() {
    let Cmd::Register { name, contributing } = command(register(true)) else { panic!("register") };
    assert_eq!((name.as_str(), contributing), ("c", true));
    assert!(matches!(command(ready(4)), Cmd::StepReady { client_id: 4 }));
    let stop = ClientMsg { client_id: 5, body: Some(ClientMsgBody::Shutdown(Shutdown {})) };
    let Cmd::Message { msg } = command(stop) else { panic!("message") };
    assert_eq!(
        msg,
        ClientMsg { client_id: 5, body: Some(ClientMsgBody::Shutdown(Shutdown {})) }
    );
    assert!(matches!(
        command(ClientMsg { client_id: 5, body: None }),
        Cmd::Message { msg: ClientMsg { client_id: 5, body: None } }
    ));
}

#[test]
fn a_stream_registers_steps_and_leaves() {
    let mut coord = Coordinator::spawn(MySim);
    let mut stream = SimSvc::open();
    assert!(stream.on_message(&mut coord, ready(1)).is_none());
    let (answer, inbox) = stream.on_message(&mut coord, register(true)).unwrap();
    assert_eq!(answer, ServerMsg::registered(1));
    assert_eq!(stream.client_id, Some(1));
    assert!(stream.on_message(&mut coord, ready(1)).is_none());
    assert_eq!(inbox.try_recv().unwrap(), ServerMsg::tick(tick(1)));
    let other = ClientMsg { client_id: 1, body: None };
    assert!(stream.on_message(&mut coord, other).is_none());
    assert_eq!(inbox.try_recv().unwrap(), ServerMsg::error("OK".to_string()));
    stream.close(&mut coord);
    assert!(inbox.recv().is_err());
    assert!(coord.contributing.is_empty());
    SimSvc::open().close(&mut coord);
    assert_eq!(SimSvc::get_latest_tick(), tick(0));
    assert_eq!(SimSvc::get_latest_state(), "no state API");
}

#[test]
fn servers_start_in_their_mode() {
    assert_eq!(create_local_server().coord.next_id, 0);
    let (server, address) = create_remote_server("127.0.0.1:50051");
    assert!(server.coord.running);
    assert_eq!(address, Some("127.0.0.1:50051".to_string()));
    assert_eq!(create_server(ServerMode::Local).1, None);
    let (server, address) = create_custom_server(ServerMode::WithGrpc("a".to_string()), EchoSim);
    assert_eq!(server.coord.tick_seq, 0);
    assert_eq!(address, Some("a".to_string()));
}

#[test]
fn a_local_client_steps_through_its_worker() {
    let mut coord = Coordinator::spawn(MySim);
    let (ends, mut worker) = connect_local();
    assert_eq!(ends.to_server.capacity(), Some(1024));
    assert_eq!(ends.from_server.capacity(), Some(1024));
    let early = worker.events.clone();
    early.send(ServerMsg::tick(tick(7))).unwrap();
    let Reply::Registered(id, inbox) = coord.take(register(true)) else { panic!("register") };
    assert_eq!(inbox.capacity(), Some(256));
    let mut relay = worker.on_reply(Reply::Registered(id, inbox)).unwrap();
    assert!(worker.inbox.is_some());
    let mut client = SyncSimClient::try_new(true, ends.to_server, ends.from_server).unwrap();
    assert_eq!(client.id(), 1);
    assert!(client.contributing());
    assert_eq!(worker.next(), Some(ClientMsg {
        client_id: 0,
        body: Some(ClientMsgBody::Register(RegisterRequest {
            client_name: String::new(),
            step_participant: true,
        })),
    }));
    assert_eq!(client.step_ready(), Ok(()));
    let request = worker.next().unwrap();
    assert_eq!(request, ready(1));
    let reply = coord.take(request);
    assert!(worker.on_reply(reply).is_none());
    assert_eq!(client.try_recv(), None);
    assert!(relay.turn());
    assert_eq!(client.wait_for_tick(), Ok(tick(1)));
    coord.remove(1);
    assert!(!relay.turn());
}

#[test]
fn a_client_that_only_steps() {
    let (ends, worker) = connect_local();
    worker.events.send(ServerMsg::registered(8)).unwrap();
    worker.events.send(ServerMsg::error("x".to_string())).unwrap();
    worker.events.send(ServerMsg::tick(tick(2))).unwrap();
    let mut client = SyncSimClient::try_new(false, ends.to_server, ends.from_server).unwrap();
    assert!(!client.contributing());
    assert_eq!(client.step(), Ok(tick(2)));
    drop(worker);
    assert_eq!(client.step(), Err(ClientError::Rejected));
    assert_eq!(client.wait_for_tick(), Err(ClientError::Closed));
    assert_eq!(client.send(ready(8)), Err(ClientError::Rejected));
    assert_eq!(client.recv(), Err(ClientError::Closed));
}

#[test]
fn a_client_without_a_server_is_refused() {
    let (ends, worker) = connect_local();
    drop(worker);
    let refused = SyncSimClient::try_new(true, ends.to_server, ends.from_server);
    assert_eq!(refused.err(), Some(ClientError::Rejected));
    let (ends, worker) = connect_local();
    let requests = worker.requests;
    drop(worker.events);
    let refused = SyncSimClient::try_new(true, ends.to_server, ends.from_server);
    assert_eq!(refused.err(), Some(ClientError::Closed));
    assert_eq!(requests.len(), 1);
    assert_eq!(
        SyncSimClient::describe(ClientError::Rejected),
        "sync_client send error: sending on a disconnected channel"
    );
    assert_eq!(
        SyncSimClient::describe(ClientError::Closed),
        "sync_client recv error: receiving on an empty and disconnected channel"
    );
}

#[test]
fn events_are_forwarded_up_to_the_tick() {
    let (ends, worker) = connect_local();
    worker.events.send(ServerMsg::registered(1)).unwrap();
    let mut client = SyncSimClient::try_new(true, ends.to_server, ends.from_server).unwrap();
    let events = [
        ServerMsg::error("x".to_string()),
        ServerMsg::tick(tick(1)),
        ServerMsg::tick(tick(2)),
    ];
    for event in &events {
        worker.events.send(event.clone()).unwrap();
    }
    let (mut tx, rx) = crossbeam_channel::unbounded();
    assert_eq!(client.forward_until_tick(&mut tx), Ok(()));
    assert_eq!(rx.try_recv().unwrap(), events[0]);
    assert_eq!(rx.try_recv().unwrap(), events[1]);
    assert!(rx.try_recv().is_err());
    drop(rx);
    assert_eq!(client.forward_until_tick(&mut tx), Err(ClientError::Rejected));
    drop(worker);
    assert_eq!(client.forward_until_tick(&mut tx), Err(ClientError::Closed));
}

#[test]
fn a_remote_worker_reports_failures_and_pumps() {
    let (ends, mut worker) = connect_remote("10.0.0.1:1");
    assert_eq!(worker.endpoint, "http://10.0.0.1:1");
    worker.connect_failed("no route");
    worker.open_failed("closed");
    assert_eq!(
        ends.from_server.try_recv().unwrap(),
        ServerMsg::error("connect error: no route".to_string())
    );
    assert_eq!(
        ends.from_server.try_recv().unwrap(),
        ServerMsg::error("open stream error: closed".to_string())
    );
    let (mut outbound, mut inbound) = worker.opened();
    ends.to_server.send(ready(3)).unwrap();
    assert_eq!(outbound.next(), Some(ready(3)));
    assert!(inbound.on_item(StreamItem::Message(ServerMsg::registered(3))));
    assert_eq!(ends.from_server.try_recv().unwrap(), ServerMsg::registered(3));
    assert!(!inbound.on_item(StreamItem::End));
    // The worker keeps the channels open after the stream has ended.
    drop(inbound);
    assert_eq!(ends.from_server.try_recv(), Err(TryRecvError::Empty));
    drop(worker);
    assert_eq!(ends.from_server.try_recv(), Err(TryRecvError::Disconnected));
    drop(ends.to_server);
    assert_eq!(outbound.next(), None);
}

#[test]
fn clients_of_a_coordinator_do_not_share_channels() {
    let mut coord = Coordinator::spawn(MySim);
    let (_, rx_a) = coord.register("a", true);
    let (_, rx_b) = coord.register("b", true);
    assert!(!rx_a.same_channel(&rx_b));
}
