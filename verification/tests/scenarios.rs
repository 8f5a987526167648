use lockstep::barrier::LoopEvent;
use lockstep::client::{Client, Downlink, StreamItem, Uplink};
use lockstep::interface::{
    ClientMsg, ClientMsgBody, ControlOutput, RegisterRequest, ServerMsg, ServerMsgBody, SimError,
    Simulation, StepReady, Tick,
};
use lockstep::link::ClientError;
use lockstep::server::{LoopStep, LoopTurn, Server, SimLoop};
use lockstep::service::{ForwarderService, StreamLink};
use std::collections::HashSet;

#[derive(Default)]
struct TestSim {
    seq: u64,
    time_s: f32,
}

impl TestSim {
    fn dt(&self) -> f32 {
        1.0 / 60.0
    }
}

impl Simulation for TestSim {
    fn handle_message(&mut self, msg: ClientMsg) -> Result<Vec<ServerMsg>, SimError> {
        Ok(vec![ServerMsg::error(format!("Received from client {}", msg.client_id))])
    }

    fn step(&mut self) -> Result<(), SimError> {
        self.seq += 1;
        self.time_s = self.seq as f32 * self.dt();
        Ok(())
    }

    fn get_tick(&self) -> Tick {
        Tick { seq: self.seq, time_bits: self.time_s.to_bits() }
    }
}

/// The tick that the simulation shows after `seq` steps.
fn tick(seq: u64) -> Tick {
    Tick { seq, time_bits: (seq as f32 * (1.0 / 60.0)).to_bits() }
}

/// A server with its loop, driven one turn at a time.
struct Host {
    server: Server<TestSim>,
    sim_loop: Option<SimLoop>,
}

impl Host {
    fn local() -> Host {
        let (server, sim_loop, address) = Server::new_local(TestSim::default());
        assert!(address.is_none());
        Host { server, sim_loop: Some(sim_loop) }
    }

    fn with_grpc(address: &str) -> Host {
        let (server, sim_loop, served) =
            Server::new_with_grpc(address.to_string(), TestSim::default());
        assert_eq!(served, Some(address.to_string()));
        Host { server, sim_loop: Some(sim_loop) }
    }

    fn join(&mut self) -> Client {
        Client::new_local(true, &mut self.server).unwrap()
    }

    /// Runs the loop until nothing comes in any more, and gives the ticks of the steps it took.
    fn settle(&mut self) -> Vec<Tick> {
        let mut ticks = Vec::new();
        while let Some(mut sim_loop) = self.sim_loop.take() {
            let (turn, idle) = match self.server.refresh(&mut sim_loop) {
                LoopStep::Stop => (LoopTurn::Stop, false),
                LoopStep::Sleep(ms) => {
                    assert_eq!(ms, 5);
                    (LoopTurn::Continue, true)
                }
                LoopStep::Wait(ms) => {
                    assert_eq!(ms, 10);
                    let event = sim_loop.wait(1);
                    let idle = matches!(event, LoopEvent::Timeout);
                    (self.server.handle(&mut sim_loop, event), idle)
                }
            };
            match turn {
                LoopTurn::Stop => {
                    self.server.finish();
                    break;
                }
                LoopTurn::Stepped(tick) => ticks.push(tick),
                LoopTurn::Continue => {}
            }
            self.sim_loop = Some(sim_loop);
            if idle {
                break;
            }
        }
        ticks
    }

    fn stopped(&self) -> bool {
        self.sim_loop.is_none()
    }
}

/// A remote client with both sides of its stream.
struct Remote {
    client: Client,
    uplink: Uplink,
    downlink: Option<Downlink>,
    link: StreamLink,
}

impl Remote {
    fn connect(host: &mut Host, address: &str) -> Remote {
        let service = ForwarderService {};
        let session = Client::new_remote(true, address.to_string());
        assert_eq!(session.endpoint, format!("http://{address}"));
        let request = RegisterRequest {
            client_name: session.request.client_name.clone(),
            step_participant: session.request.step_participant,
        };
        let response = service.register(&mut host.server, request);
        let (client, uplink, downlink) = session.registered(response.client_id);
        let metadata = Some(uplink.metadata().into_bytes());
        let link = service.try_open(&host.server, &metadata).unwrap().unwrap();
        assert_eq!(link.client_id, client.id());
        Remote { client, uplink, downlink: Some(downlink), link }
    }

    /// Carries one request to the server.
    fn carry_up(&mut self) -> bool {
        let request = self.uplink.next_request().unwrap();
        assert_eq!(request.client_id, self.client.id());
        self.link.on_item(StreamItem::Message(request))
    }

    /// Carries what the server has to the client, until there is nothing more or the stream ends.
    fn carry_down(&mut self) {
        while let Some(downlink) = self.downlink.take() {
            match self.link.next_outgoing() {
                Some(item) => self.downlink = downlink.on_item(item),
                None => {
                    self.downlink = Some(downlink);
                    break;
                }
            }
        }
    }

    fn leave(self, host: &mut Host) {
        let Remote { client, mut uplink, downlink, mut link } = self;
        let id = client.id();
        drop(client);
        assert!(uplink.next_request().is_none());
        assert!(!link.on_item(StreamItem::End));
        drop(downlink);
        link.close(&mut host.server);
        assert!(!host.server.clients.contains_key(&id));
    }
}

fn report(client: &mut Client) {
    client.send(ClientMsgBody::StepReady(StepReady {})).unwrap();
}

/// One round: everybody reports, the server steps once, and everybody gets the tick.
fn round(host: &mut Host, locals: &mut [&mut Client], remotes: &mut [&mut Remote], seq: u64) {
    let mut left = locals.len() + remotes.len();
    for client in locals.iter_mut() {
        assert!(host.settle().is_empty());
        report(client);
        left -= 1;
        let ticks = host.settle();
        assert_eq!(ticks.is_empty(), left > 0);
    }
    for remote in remotes.iter_mut() {
        report(&mut remote.client);
        assert!(remote.carry_up());
        left -= 1;
        let ticks = host.settle();
        assert_eq!(ticks.is_empty(), left > 0);
        if left == 0 {
            assert_eq!(ticks, vec![tick(seq)]);
        }
    }
    for client in locals.iter_mut() {
        assert_eq!(client.wait_for_tick(), Ok(tick(seq)));
    }
    for remote in remotes.iter_mut() {
        remote.carry_down();
        assert_eq!(remote.client.wait_for_tick(), Ok(tick(seq)));
    }
}

fn shut_down(mut host: Host) {
    host.server.shutdown();
    assert!(host.settle().is_empty());
    assert!(host.stopped());
    assert!(host.server.clients.is_empty());
}

#[test]
fn single_local_client_steps() {
    let mut host = Host::local();
    let mut client = host.join();
    assert_eq!(client.id(), 1);
    for seq in 1..6 {
        round(&mut host, &mut [&mut client], &mut [], seq);
    }
    shut_down(host);
    assert_eq!(client.recv(), Err(ClientError::Closed));
}

#[test]
fn local_only_basic() {
    let mut host = Host::local();
    let mut client_a = host.join();
    let mut client_b = host.join();
    for seq in 1..6 {
        round(&mut host, &mut [&mut client_a, &mut client_b], &mut [], seq);
    }
    shut_down(host);
}

#[test]
fn two_local_clients_sync_barrier() {
    let mut host = Host::local();
    let mut client_a = host.join();
    let mut client_b = host.join();
    assert_eq!((client_a.id(), client_b.id()), (1, 2));
    for seq in 1..6 {
        report(&mut client_a);
        report(&mut client_a);
        assert!(host.settle().is_empty());
        assert!(client_a.try_recv().is_none());
        report(&mut client_b);
        assert_eq!(host.settle(), vec![tick(seq)]);
        assert_eq!(client_a.wait_for_tick(), Ok(tick(seq)));
        assert_eq!(client_b.wait_for_tick(), Ok(tick(seq)));
    }
    shut_down(host);
}

#[test]
fn local_client_can_join_mid_simulation() {
    let mut host = Host::local();
    let mut client_a = host.join();
    for seq in 1..4 {
        round(&mut host, &mut [&mut client_a], &mut [], seq);
    }
    let mut client_b = host.join();
    report(&mut client_a);
    assert!(host.settle().is_empty());
    report(&mut client_b);
    assert_eq!(host.settle(), vec![tick(4)]);
    assert_eq!(client_a.wait_for_tick(), Ok(tick(4)));
    assert_eq!(client_b.wait_for_tick(), Ok(tick(4)));
    for seq in 5..9 {
        round(&mut host, &mut [&mut client_a, &mut client_b], &mut [], seq);
    }
    drop(client_a);
    report(&mut client_b);
    assert_eq!(host.settle(), vec![tick(9)]);
    drop(client_b);
    shut_down(host);
}

#[test]
fn local_client_can_shutdown_server() {
    let mut host = Host::local();
    let mut client_a = host.join();
    let mut client_b = host.join();
    for seq in 1..4 {
        round(&mut host, &mut [&mut client_a, &mut client_b], &mut [], seq);
    }
    assert_eq!(client_a.shutdown_server(), Ok(()));
    assert!(host.settle().is_empty());
    assert!(host.stopped());
    assert_eq!(client_b.step_ready(), Err(ClientError::Rejected));
    assert_eq!(client_b.recv(), Err(ClientError::Closed));
}

#[test]
fn server_initiated_shutdown_stops_clients() {
    let mut host = Host::local();
    let mut client_a = host.join();
    let mut client_b = host.join();
    for seq in 1..8 {
        round(&mut host, &mut [&mut client_a, &mut client_b], &mut [], seq);
    }
    shut_down(host);
    assert_eq!(client_a.step_ready(), Err(ClientError::Rejected));
    assert_eq!(client_b.step_ready(), Err(ClientError::Rejected));
}

#[test]
fn remote_only_basic() {
    let address = "127.0.0.1:50052";
    let mut host = Host::with_grpc(address);
    let mut c1 = Remote::connect(&mut host, address);
    let mut c2 = Remote::connect(&mut host, address);
    for seq in 1..6 {
        round(&mut host, &mut [], &mut [&mut c1, &mut c2], seq);
    }
    shut_down(host);
}

#[test]
fn remote_client_connects_late() {
    let address = "127.0.0.1:50061";
    let mut host = Host::with_grpc(address);
    assert!(host.settle().is_empty());
    let mut client_a = Remote::connect(&mut host, address);
    for seq in 1..4 {
        round(&mut host, &mut [], &mut [&mut client_a], seq);
    }
    let mut client_b = Remote::connect(&mut host, address);
    for seq in 4..6 {
        round(&mut host, &mut [], &mut [&mut client_a, &mut client_b], seq);
    }
    client_a.leave(&mut host);
    for seq in 6..8 {
        round(&mut host, &mut [], &mut [&mut client_b], seq);
    }
    client_b.leave(&mut host);
    shut_down(host);
}

#[test]
fn remote_client_disconnects_mid_simulation() {
    let address = "127.0.0.1:50062";
    let mut host = Host::with_grpc(address);
    let mut client_a = Remote::connect(&mut host, address);
    let mut client_b = Remote::connect(&mut host, address);
    for seq in 1..5 {
        round(&mut host, &mut [], &mut [&mut client_a, &mut client_b], seq);
    }
    report(&mut client_a.client);
    assert!(client_a.carry_up());
    assert!(host.settle().is_empty());
    client_b.leave(&mut host);
    assert_eq!(host.settle(), vec![tick(5)]);
    client_a.carry_down();
    assert_eq!(client_a.client.wait_for_tick(), Ok(tick(5)));
    round(&mut host, &mut [], &mut [&mut client_a], 6);
    shut_down(host);
}

#[test]
fn remote_multiple_clients() {
    let address = "127.0.0.1:50110";
    let mut host = Host::with_grpc(address);
    let mut c1 = Remote::connect(&mut host, address);
    let mut c2 = Remote::connect(&mut host, address);
    let mut c3 = Remote::connect(&mut host, address);
    for seq in 1..6 {
        round(&mut host, &mut [], &mut [&mut c1, &mut c2, &mut c3], seq);
    }
    c3.leave(&mut host);
    round(&mut host, &mut [], &mut [&mut c1, &mut c2], 6);
    shut_down(host);
}

#[test]
fn remote_client_reconnects() {
    let address = "127.0.0.1:50063";
    let mut host = Host::with_grpc(address);
    let mut client = Remote::connect(&mut host, address);
    for seq in 1..4 {
        round(&mut host, &mut [], &mut [&mut client], seq);
    }
    client.leave(&mut host);
    assert!(host.settle().is_empty());
    assert!(!host.stopped());
    let mut client2 = Remote::connect(&mut host, address);
    assert_eq!(client2.client.id(), 2);
    for seq in 4..7 {
        round(&mut host, &mut [], &mut [&mut client2], seq);
    }
    shut_down(host);
}

#[test]
fn remote_client_can_shutdown_server() {
    let address = "127.0.0.1:50051";
    let mut host = Host::with_grpc(address);
    let mut local = host.join();
    let mut remote = Remote::connect(&mut host, address);
    for seq in 1..4 {
        round(&mut host, &mut [&mut local], &mut [&mut remote], seq);
    }
    assert_eq!(remote.client.shutdown_server(), Ok(()));
    assert!(remote.carry_up());
    assert!(host.settle().is_empty());
    assert!(host.stopped());
    assert_eq!(local.step_ready(), Err(ClientError::Rejected));
}

#[test]
fn remote_server_shutdown_drops_clients() {
    let address = "127.0.0.1:50065";
    let mut host = Host::with_grpc(address);
    let mut client_a = Remote::connect(&mut host, address);
    let mut client_b = Remote::connect(&mut host, address);
    for seq in 1..9 {
        round(&mut host, &mut [], &mut [&mut client_a, &mut client_b], seq);
    }
    // One client already waits for the next tick, and an earlier event is still on its way.
    client_a.client.send(ClientMsgBody::Control(ControlOutput { actuators: vec![] })).unwrap();
    report(&mut client_a.client);
    assert!(client_a.carry_up());
    assert!(client_a.carry_up());
    assert!(host.settle().is_empty());
    shut_down(host);
    client_a.carry_down();
    assert!(client_a.downlink.is_none());
    assert_eq!(client_a.client.wait_for_tick(), Err(ClientError::Closed));
    // The other one reports only now.
    report(&mut client_b.client);
    assert!(!client_b.carry_up());
    client_b.carry_down();
    assert!(client_b.downlink.is_none());
    assert_eq!(client_b.client.wait_for_tick(), Err(ClientError::Closed));
    drop(client_b.uplink);
    assert_eq!(client_b.client.step_ready(), Err(ClientError::Rejected));
}

#[test]
fn a_client_gets_the_ticks_sent_before_a_shutdown() {
    let address = "127.0.0.1:50065";
    let mut host = Host::with_grpc(address);
    let mut local = host.join();
    let mut remote = Remote::connect(&mut host, address);
    report(&mut local);
    report(&mut remote.client);
    assert!(remote.carry_up());
    assert_eq!(host.settle(), vec![tick(1)]);
    shut_down(host);
    remote.carry_down();
    assert_eq!(remote.client.wait_for_tick(), Ok(tick(1)));
    assert_eq!(remote.client.wait_for_tick(), Err(ClientError::Closed));
    assert_eq!(local.wait_for_tick(), Ok(tick(1)));
    assert_eq!(local.wait_for_tick(), Err(ClientError::Closed));
}

#[test]
fn hybrid_basic() {
    let address = "127.0.0.1:50051";
    let mut host = Host::with_grpc(address);
    let mut local = host.join();
    let mut remote = Remote::connect(&mut host, address);
    for seq in 1..6 {
        round(&mut host, &mut [&mut local], &mut [&mut remote], seq);
    }
    shut_down(host);
}

#[test]
fn hybrid_local_disconnect_mid_step() {
    let address = "127.0.0.1:50063";
    let mut host = Host::with_grpc(address);
    let mut local = host.join();
    let mut remote = Remote::connect(&mut host, address);
    for seq in 1..5 {
        round(&mut host, &mut [&mut local], &mut [&mut remote], seq);
    }
    report(&mut remote.client);
    assert!(remote.carry_up());
    assert!(host.settle().is_empty());
    drop(local);
    assert_eq!(host.settle(), vec![tick(5)]);
    remote.carry_down();
    assert_eq!(remote.client.wait_for_tick(), Ok(tick(5)));
    for seq in 6..11 {
        round(&mut host, &mut [], &mut [&mut remote], seq);
    }
    shut_down(host);
}

#[test]
fn hybrid_remote_disconnect_mid_step() {
    let address = "127.0.0.1:50053";
    let mut host = Host::with_grpc(address);
    let mut local = host.join();
    let mut remote = Remote::connect(&mut host, address);
    for seq in 1..5 {
        round(&mut host, &mut [&mut local], &mut [&mut remote], seq);
    }
    report(&mut local);
    assert!(host.settle().is_empty());
    remote.leave(&mut host);
    assert_eq!(host.settle(), vec![tick(5)]);
    assert_eq!(local.wait_for_tick(), Ok(tick(5)));
    for seq in 6..11 {
        round(&mut host, &mut [&mut local], &mut [], seq);
    }
    shut_down(host);
}

#[test]
fn hybrid_local_late_join() {
    let address = "127.0.0.1:50100";
    let mut host = Host::with_grpc(address);
    let mut remote = Remote::connect(&mut host, address);
    for seq in 1..4 {
        round(&mut host, &mut [], &mut [&mut remote], seq);
    }
    let mut local = host.join();
    for seq in 4..9 {
        round(&mut host, &mut [&mut local], &mut [&mut remote], seq);
    }
    shut_down(host);
}

#[test]
fn hybrid_multiple_locals_and_one_remote() {
    let address = "127.0.0.1:50103";
    let mut host = Host::with_grpc(address);
    let mut local_a = host.join();
    let mut local_b = host.join();
    let mut remote = Remote::connect(&mut host, address);
    for seq in 1..7 {
        round(&mut host, &mut [&mut local_a, &mut local_b], &mut [&mut remote], seq);
    }
    shut_down(host);
}

#[test]
fn hybrid_multiple_remotes() {
    let address = "127.0.0.1:50055";
    let mut host = Host::with_grpc(address);
    let mut local = host.join();
    let mut r1 = Remote::connect(&mut host, address);
    let mut r2 = Remote::connect(&mut host, address);
    for seq in 1..7 {
        round(&mut host, &mut [&mut local], &mut [&mut r1, &mut r2], seq);
    }
    shut_down(host);
}

#[test]
fn hybrid_remote_shutdown() {
    let address = "127.0.0.1:50054";
    let mut host = Host::with_grpc(address);
    let mut local = host.join();
    let mut remote = Remote::connect(&mut host, address);
    for seq in 1..7 {
        round(&mut host, &mut [&mut local], &mut [&mut remote], seq);
    }
    assert_eq!(remote.client.shutdown_server(), Ok(()));
    assert!(remote.carry_up());
    assert!(host.settle().is_empty());
    assert!(host.stopped());
    assert_eq!(local.step_ready(), Err(ClientError::Rejected));
}

#[test]
fn a_message_is_answered_to_every_client() {
    let mut host = Host::local();
    let mut sender = host.join();
    let mut viewer = Client::new_local(false, &mut host.server).unwrap();
    assert!(sender.step_participant());
    assert!(!viewer.step_participant());
    viewer.send(ClientMsgBody::Control(ControlOutput { actuators: vec![] })).unwrap();
    assert!(host.settle().is_empty());
    let answer = ServerMsg::error("Received from client 2".to_string());
    assert_eq!(sender.recv(), Ok(answer.clone()));
    assert_eq!(viewer.recv(), Ok(answer));
}

#[test]
fn a_viewer_neither_holds_nor_steps_the_simulation() {
    let mut host = Host::local();
    let mut client = host.join();
    let mut viewer = Client::new_local(false, &mut host.server).unwrap();
    round(&mut host, &mut [&mut client], &mut [], 1);
    assert_eq!(viewer.recv(), Ok(ServerMsg::tick(tick(1))));
    drop(viewer);
    assert!(host.settle().is_empty());
    round(&mut host, &mut [&mut client], &mut [], 2);
}

#[test]
fn the_loop_goes_on_when_everybody_has_left() {
    let mut host = Host::local();
    let client = host.join();
    assert!(host.settle().is_empty());
    let id = client.id();
    let mut sim_loop = host.sim_loop.take().unwrap();
    assert_eq!(host.server.refresh(&mut sim_loop), LoopStep::Wait(10));
    host.server.unregister_client(id);
    assert_eq!(host.server.handle(&mut sim_loop, LoopEvent::Timeout), LoopTurn::Continue);
    assert_eq!(host.server.refresh(&mut sim_loop), LoopStep::Sleep(5));
    host.sim_loop = Some(sim_loop);
    drop(client);
    let mut next = host.join();
    assert_eq!(next.id(), 2);
    round(&mut host, &mut [&mut next], &mut [], 1);
    shut_down(host);
}

#[test]
fn events_are_collected_and_forwarded_in_order() {
    let mut host = Host::local();
    let mut client = host.join();
    for _ in 0..3 {
        report(&mut client);
    }
    assert_eq!(host.settle(), vec![tick(1), tick(2), tick(3)]);
    assert_eq!(client.try_recv(), Some(ServerMsg::tick(tick(1))));
    let mut there = client.try_iter();
    assert_eq!(there.next(), Some(ServerMsg::tick(tick(2))));
    assert_eq!(there.next(), Some(ServerMsg::tick(tick(3))));
    assert_eq!(there.next(), None);
    for _ in 0..2 {
        report(&mut client);
    }
    host.settle();
    let (mut tx, rx) = crossbeam_channel::unbounded();
    assert_eq!(client.forward_all(&mut tx), Ok(()));
    assert_eq!(rx.try_recv().unwrap(), ServerMsg::tick(tick(4)));
    assert_eq!(rx.try_recv().unwrap(), ServerMsg::tick(tick(5)));
    assert!(rx.try_recv().is_err());
    report(&mut client);
    host.settle();
    drop(rx);
    assert_eq!(client.forward_all(&mut tx), Err(ClientError::Rejected));
    report(&mut client);
    host.settle();
    shut_down(host);
    let mut events = client.iter();
    assert_eq!(events.next(), Some(ServerMsg::tick(tick(7))));
    assert_eq!(events.next(), None);
}

#[test]
fn step_ready_skips_other_events() {
    let mut host = Host::local();
    let mut client = host.join();
    let mut twin = client.clone();
    assert_eq!(twin.id(), client.id());
    twin.send(ClientMsgBody::Control(ControlOutput { actuators: vec![] })).unwrap();
    report(&mut twin);
    assert_eq!(host.settle(), vec![tick(1)]);
    assert_eq!(client.step_ready(), Ok(tick(1)));
    assert_eq!(host.settle(), vec![tick(2)]);
    let event = client.recv().unwrap();
    assert!(matches!(event.body, Some(ServerMsgBody::Tick(_))));
}

#[test]
fn a_viewer_that_reports_is_not_counted() {
    let mut host = Host::local();
    let mut client_a = host.join();
    let mut client_b = host.join();
    let mut viewer = Client::new_local(false, &mut host.server).unwrap();
    report(&mut viewer);
    report(&mut client_a);
    assert!(host.settle().is_empty());
    report(&mut client_b);
    assert_eq!(host.settle(), vec![tick(1)]);
    assert_eq!(viewer.wait_for_tick(), Ok(tick(1)));
    let mut ready = HashSet::from([1, 3]);
    assert_eq!(host.server.maybe_step_simulation(&mut ready), None);
    assert_eq!(ready, HashSet::from([1, 3]));
    assert_eq!(host.server.sim.seq, 1);
    ready.insert(2);
    assert_eq!(host.server.maybe_step_simulation(&mut ready), Some(tick(2)));
    assert!(ready.is_empty());
}

#[test]
fn viewers_that_reported_do_not_hold_the_step() {
    let mut host = Host::local();
    let mut viewer_a = Client::new_local(false, &mut host.server).unwrap();
    let mut viewer_b = Client::new_local(false, &mut host.server).unwrap();
    report(&mut viewer_a);
    report(&mut viewer_b);
    assert!(host.settle().is_empty());
    let mut client_a = host.join();
    let client_b = host.join();
    report(&mut client_a);
    assert!(host.settle().is_empty());
    drop(client_b);
    assert_eq!(host.settle(), vec![tick(1)]);
    assert_eq!(client_a.wait_for_tick(), Ok(tick(1)));
}

#[test]
fn ids_are_not_used_twice() {
    let mut host = Host::local();
    let first = host.join();
    assert_eq!(first.id(), 1);
    drop(first);
    let second = host.join();
    assert!(host.settle().is_empty());
    assert_eq!(second.id(), 2);
    let third = host.join();
    assert_eq!(third.id(), 3);
}

#[test]
fn a_wait_amounts_to_an_event() {
    let msg = || ClientMsg { client_id: 7, body: None };
    assert!(matches!(
        LoopEvent::from_wait(Some((2, Some(msg())))),
        LoopEvent::Message(2, ClientMsg { client_id: 7, body: None })
    ));
    assert!(matches!(LoopEvent::from_wait(Some((3, None))), LoopEvent::Disconnected(3)));
    assert!(matches!(LoopEvent::from_wait(None), LoopEvent::Timeout));
}

#[test]
fn a_wait_without_a_message_takes_its_time() {
    let mut host = Host::local();
    let mut client = host.join();
    let mut sim_loop = host.sim_loop.take().unwrap();
    assert_eq!(host.server.refresh(&mut sim_loop), LoopStep::Wait(10));
    let start = std::time::Instant::now();
    assert!(matches!(sim_loop.wait(30), LoopEvent::Timeout));
    assert!(start.elapsed() >= std::time::Duration::from_millis(30));
    report(&mut client);
    assert!(matches!(sim_loop.wait(30), LoopEvent::Message(0, _)));
    drop(client);
    assert!(matches!(sim_loop.wait(30), LoopEvent::Disconnected(0)));
}

#[test]
fn events_are_iterated_while_the_server_runs() {
    let mut host = Host::local();
    let mut client = host.join();
    let mut twin = client.clone();
    let mut events = client.iter();
    for seq in 1..4 {
        report(&mut twin);
        assert_eq!(host.settle(), vec![tick(seq)]);
        assert_eq!(events.next(), Some(ServerMsg::tick(tick(seq))));
    }
    shut_down(host);
    assert_eq!(events.next(), None);
    assert_eq!(client.recv(), Err(ClientError::Closed));
}

#[test]
fn a_client_steps_over_and_over_until_a_shutdown() {
    let mut host = Host::local();
    let mut client = host.join();
    // One report is on its way, so that each step finds its tick.
    report(&mut client);
    for seq in 1..6 {
        assert_eq!(host.settle(), vec![tick(seq)]);
        assert_eq!(client.step_ready(), Ok(tick(seq)));
    }
    assert_eq!(host.settle(), vec![tick(6)]);
    host.server.shutdown();
    let mut sim_loop = host.sim_loop.take().unwrap();
    assert_eq!(host.server.refresh(&mut sim_loop), LoopStep::Stop);
    host.server.finish();
    // The loop still listens: the report gets through, and the tick sent before is used first.
    assert_eq!(client.step_ready(), Ok(tick(6)));
    assert_eq!(client.step_ready(), Err(ClientError::Closed));
    drop(sim_loop);
    assert_eq!(client.step_ready(), Err(ClientError::Rejected));
}

#[test]
fn a_remote_client_steps_over_and_over_until_a_shutdown() {
    let address = "127.0.0.1:50066";
    let mut host = Host::with_grpc(address);
    let mut remote = Remote::connect(&mut host, address);
    report(&mut remote.client);
    for seq in 1..6 {
        assert!(remote.carry_up());
        assert_eq!(host.settle(), vec![tick(seq)]);
        remote.carry_down();
        assert_eq!(remote.client.step_ready(), Ok(tick(seq)));
    }
    shut_down(host);
    assert!(!remote.carry_up());
    remote.carry_down();
    assert!(remote.downlink.is_none());
    assert_eq!(remote.client.step_ready(), Err(ClientError::Closed));
    drop(remote.uplink);
    assert_eq!(remote.client.step_ready(), Err(ClientError::Rejected));
}

#[test]
fn clients_do_not_share_channels() {
    let mut host = Host::local();
    let client_a = host.join();
    let client_b = host.join();
    assert!(!client_a.ends.to_server.same_channel(&client_b.ends.to_server));
    assert!(!client_a.ends.from_server.same_channel(&client_b.ends.from_server));
    let info = host.server.clients.get(&client_a.id()).unwrap();
    assert!(info.outbound_rx.same_channel(&client_a.ends.from_server));
}

#[test]
fn a_loop_that_listens_to_nobody_does_not_wait() {
    let mut sim_loop = SimLoop::new();
    assert!(matches!(sim_loop.wait(u64::MAX), LoopEvent::Timeout));
}

#[test]
fn the_loop_hears_every_client_after_changes() {
    let mut host = Host::local();
    let mut sim_loop = host.sim_loop.take().unwrap();
    let first = host.join();
    host.server.refresh(&mut sim_loop);
    assert_eq!(sim_loop.client_ids, vec![1]);
    drop(first);
    host.server.unregister_client(1);
    let second = host.join();
    let third = host.join();
    host.server.refresh(&mut sim_loop);
    assert_eq!(sim_loop.client_ids, vec![2, 3]);
    for (client, heard) in [second, third].iter().zip(&sim_loop.receivers) {
        let info = host.server.clients.get(&client.id()).unwrap();
        assert!(info.inbound_rx.same_channel(heard));
    }
}
