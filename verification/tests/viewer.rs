use lockstep::client::Client;
use lockstep::controller::{spawn_controller_thread, Cycle};
use lockstep::interface::{Observation, ServerMsg, ServerMsgBody, Tick};
use lockstep::link::ClientError;
use lockstep::server::Server;
use lockstep::simulator::MySim;
use lockstep::visualizer::{
    run, spawn_viewer_worker, LaunchStep, Notice, Phase, SimState, StepBarrier, ViewerWorker,
    VisualizerMode,
};
use std::sync::Arc;

/// Goes through the phases of one round.
fn round(worker: &mut ViewerWorker) -> Result<(), ClientError> {
    let first = worker.phase;
    loop {
        worker.advance()?;
        if worker.phase == first {
            return Ok(());
        }
    }
}

fn tick(seq: u64) -> Tick {
    Tick { seq, time_bits: 0 }
}

#[test]
fn launches_follow_the_mode() {
    let addr = || "127.0.0.1:50051".to_string();
    assert_eq!(
        run(VisualizerMode::LocalBlockingWithServer),
        vec![
            LaunchStep::StartLocalServer,
            LaunchStep::ConnectLocal { participant: true },
            LaunchStep::SpawnViewerWorker,
            LaunchStep::RunViewer,
        ]
    );
    assert_eq!(
        run(VisualizerMode::RemoteBlockingWithServer { addr: addr() }),
        vec![
            LaunchStep::StartRemoteServer { addr: addr() },
            LaunchStep::ConnectRemote { participant: true, addr: addr() },
            LaunchStep::SpawnViewerWorker,
            LaunchStep::RunViewer,
            LaunchStep::DropServer,
        ]
    );
    assert_eq!(
        run(VisualizerMode::RemoteNonBlockingWithServer { addr: addr() }),
        vec![
            LaunchStep::StartRemoteServer { addr: addr() },
            LaunchStep::ConnectRemote { participant: false, addr: addr() },
            LaunchStep::SpawnViewerWorker,
            LaunchStep::ConnectStepper { addr: addr(), work_ms: 1 },
            LaunchStep::RunViewer,
            LaunchStep::JoinStepper,
            LaunchStep::DropServer,
        ]
    );
    assert_eq!(
        run(VisualizerMode::RemoteNonBlocking { addr: addr() }),
        vec![
            LaunchStep::ConnectRemote { participant: false, addr: addr() },
            LaunchStep::SpawnViewerWorker,
            LaunchStep::RunViewer,
        ]
    );
    assert_eq!(
        run(VisualizerMode::RemoteBlocking { addr: addr() }),
        vec![
            LaunchStep::ConnectRemote { participant: true, addr: addr() },
            LaunchStep::SpawnViewerWorker,
            LaunchStep::RunViewer,
        ]
    );
}

#[test]
fn the_last_tick_is_shown() {
    let (tx, mut rx) = crossbeam_channel::unbounded();
    let mut state = SimState::new();
    assert_eq!(state.tick_label(), "Tick: 0");
    assert_eq!(state.drain_inbox(&mut rx), vec![]);
    let observation = Observation { encoded: Arc::new(vec![]) };
    tx.send(ServerMsg::tick(tick(11))).unwrap();
    tx.send(ServerMsg::error("x".to_string())).unwrap();
    tx.send(ServerMsg::tick(tick(12))).unwrap();
    tx.send(ServerMsg { body: Some(ServerMsgBody::State(observation)) }).unwrap();
    tx.send(ServerMsg { body: None }).unwrap();
    assert_eq!(
        state.drain_inbox(&mut rx),
        vec![Notice::Tick(11), Notice::Tick(12), Notice::State]
    );
    assert_eq!(state.tick, 12);
    assert_eq!(state.tick_label(), "Tick: 12");
}

#[test]
fn a_frame_releases_the_worker_when_it_is_due() {
    let (tx, rx) = crossbeam_channel::bounded(1);
    let mut barrier = StepBarrier { done: tx };
    barrier.end_frame(false, false);
    assert!(rx.try_recv().is_err());
    barrier.end_frame(true, false);
    barrier.end_frame(false, true);
    assert_eq!(rx.try_recv(), Ok(()));
    assert!(rx.try_recv().is_err());
    barrier.end_frame(true, true);
    assert_eq!(rx.try_recv(), Ok(()));
}

#[test]
fn a_worker_feeds_the_viewer() {
    let (mut server, _, _) = Server::new_local(MySim);
    let sim = Client::new_local(false, &mut server).unwrap();
    let (mut worker, rx_app, tx_done) = spawn_viewer_worker(sim);
    assert_eq!(rx_app.capacity(), Some(1024));
    assert_eq!(tx_done.capacity(), Some(1));
    assert_eq!(round(&mut worker), Ok(()));
    assert!(rx_app.try_recv().is_err());
    let info = server.clients.get(&1).unwrap().value().clone();
    info.outbound_tx.send(ServerMsg::tick(tick(1))).unwrap();
    info.outbound_tx.send(ServerMsg::tick(tick(2))).unwrap();
    assert_eq!(round(&mut worker), Ok(()));
    assert_eq!(rx_app.try_recv().unwrap(), ServerMsg::tick(tick(1)));
    assert_eq!(rx_app.try_recv().unwrap(), ServerMsg::tick(tick(2)));
    info.outbound_tx.send(ServerMsg::tick(tick(3))).unwrap();
    drop(rx_app);
    assert_eq!(round(&mut worker), Err(ClientError::Rejected));
}

#[test]
fn a_participating_worker_steps_before_each_frame() {
    let (mut server, _, _) = Server::new_local(MySim);
    let sim = Client::new_local(true, &mut server).unwrap();
    let (mut worker, rx_app, tx_done) = spawn_viewer_worker(sim);
    let mut barrier = StepBarrier { done: tx_done };
    let info = server.clients.get(&1).unwrap().value().clone();
    info.outbound_tx.send(ServerMsg::error("dropped".to_string())).unwrap();
    info.outbound_tx.send(ServerMsg::tick(tick(1))).unwrap();
    info.outbound_tx.send(ServerMsg::error("kept".to_string())).unwrap();
    barrier.end_frame(true, false);
    assert_eq!(round(&mut worker), Ok(()));
    assert_eq!(rx_app.try_recv().unwrap(), ServerMsg::tick(tick(1)));
    assert_eq!(rx_app.try_recv().unwrap(), ServerMsg::error("kept".to_string()));
    assert!(rx_app.try_recv().is_err());
    assert_eq!(info.inbound_rx.len(), 1);
    info.outbound_tx.send(ServerMsg::tick(tick(2))).unwrap();
    drop(barrier);
    assert_eq!(round(&mut worker), Ok(()));
    drop(info);
    server.finish();
    assert_eq!(round(&mut worker), Err(ClientError::Rejected));
}

#[test]
fn a_tick_is_shown_before_its_frame_and_events_after_it() {
    let (mut server, _, _) = Server::new_local(MySim);
    let sim = Client::new_local(true, &mut server).unwrap();
    let (mut worker, rx_app, tx_done) = spawn_viewer_worker(sim);
    let info = server.clients.get(&1).unwrap().value().clone();
    for seq in 1..4 {
        info.outbound_tx.send(ServerMsg::tick(tick(seq))).unwrap();
        info.outbound_tx.send(ServerMsg::error("after".to_string())).unwrap();
        assert_eq!(worker.phase, Phase::Step);
        assert_eq!(worker.advance(), Ok(()));
        assert_eq!(info.inbound_rx.len(), seq as usize);
        assert_eq!(worker.phase, Phase::Frame);
        assert_eq!(rx_app.try_recv().unwrap(), ServerMsg::tick(tick(seq)));
        assert!(rx_app.try_recv().is_err());
        tx_done.try_send(()).unwrap();
        assert_eq!(worker.advance(), Ok(()));
        assert_eq!(worker.phase, Phase::Drain);
        assert!(tx_done.is_empty());
        assert!(rx_app.try_recv().is_err());
        assert_eq!(worker.advance(), Ok(()));
        assert_eq!(rx_app.try_recv().unwrap(), ServerMsg::error("after".to_string()));
    }
}

#[test]
fn a_controller_works_for_its_cycles() {
    let (mut server, _, _) = Server::new_local(MySim);
    let sim = Client::new_local(true, &mut server).unwrap();
    let mut controller = spawn_controller_thread(2, 40, sim);
    let info = server.clients.get(&1).unwrap().value().clone();
    for seq in 1..4 {
        info.outbound_tx.send(ServerMsg::tick(tick(seq))).unwrap();
    }
    assert_eq!(controller.next_cycle(), Cycle::Work(tick(1), 40));
    assert_eq!(controller.work_line(tick(1)), "[client: 1] doing work: 1");
    assert_eq!(controller.next_cycle(), Cycle::Work(tick(2), 40));
    assert_eq!(controller.next_cycle(), Cycle::Done);
    assert_eq!(info.inbound_rx.len(), 2);
}

#[test]
fn a_controller_ends_with_its_server() {
    let (mut server, _, _) = Server::new_local(MySim);
    let sim = Client::new_local(true, &mut server).unwrap();
    let mut controller = spawn_controller_thread(5, 600, sim);
    server.finish();
    assert_eq!(controller.next_cycle(), Cycle::Failed(ClientError::Rejected));
    assert_eq!(controller.next_cycle(), Cycle::Done);
}
