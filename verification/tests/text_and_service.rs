use lockstep::client::{Client, LocalClient, RemoteClient, StreamItem};
use lockstep::interface::{
    ActuatorCmd, ClientMsg, ClientMsgBody, ControlOutput, Observation, ParamUpdate,
    RegisterRequest, ServerMsg, ServerMsgBody, Simulation, StepReady, Tick,
};
use lockstep::link::ClientError;
use lockstep::server::Server;
use lockstep::service::{client_id_of, ForwarderService, OpenError, StatusCode};
use lockstep::simulator::MySim;
use lockstep::text::{check_metadata_text, endpoint, parse_u64, starts_with, to_decimal};
use std::sync::Arc;

fn bytes(text: &str) -> Vec<u8> {
    text.as_bytes().to_vec()
}

#[test]
fn numbers_are_written_in_decimal() {
    assert_eq!(to_decimal(0), "0");
    assert_eq!(to_decimal(7), "7");
    assert_eq!(to_decimal(10), "10");
    assert_eq!(to_decimal(1234567890), "1234567890");
    assert_eq!(to_decimal(u64::MAX), "18446744073709551615");
}

#[test]
fn numbers_are_read_in_decimal() {
    assert_eq!(parse_u64(&bytes("0")), Some(0));
    assert_eq!(parse_u64(&bytes("007")), Some(7));
    assert_eq!(parse_u64(&bytes("+12")), Some(12));
    assert_eq!(parse_u64(&bytes("18446744073709551615")), Some(u64::MAX));
    assert_eq!(parse_u64(&bytes("18446744073709551616")), None);
    assert_eq!(parse_u64(&bytes("")), None);
    assert_eq!(parse_u64(&bytes("+")), None);
    assert_eq!(parse_u64(&bytes("-1")), None);
    assert_eq!(parse_u64(&bytes("1 ")), None);
    assert_eq!(parse_u64(&bytes("0x10")), None);
}

#[test]
fn reading_agrees_with_the_standard_parser() {
    for text in ["0", "1", "+1", "++1", "", "+", "99", "9a", " 9", "18446744073709551615",
        "18446744073709551620", "184467440737095516150", "00000000000000000000001"]
    {
        assert_eq!(parse_u64(&bytes(text)), text.parse::<u64>().ok(), "{text}");
    }
}

#[test]
fn a_number_survives_writing_and_reading() {
    for n in [0, 9, 10, 99, 100, 65535, u64::MAX - 1, u64::MAX] {
        assert_eq!(parse_u64(&bytes(&to_decimal(n))), Some(n));
        assert_eq!(to_decimal(n), n.to_string());
    }
}

#[test]
fn an_address_gets_a_scheme_unless_it_has_one() {
    assert_eq!(endpoint("127.0.0.1:50051"), "http://127.0.0.1:50051");
    assert_eq!(endpoint("http://127.0.0.1:50051"), "http://127.0.0.1:50051");
    assert_eq!(endpoint("https://example.org"), "https://example.org");
    assert_eq!(endpoint("httpx://a"), "http://httpx://a");
    assert_eq!(endpoint("http:/"), "http://http:/");
    assert_eq!(endpoint(""), "http://");
    assert_eq!(endpoint(&endpoint("h\u{f6}st:1")), "http://h\u{f6}st:1");
}

#[test]
fn prefixes_are_found() {
    assert!(starts_with("abc", "ab"));
    assert!(starts_with("abc", ""));
    assert!(starts_with("\u{e9}t\u{e9}", "\u{e9}t"));
    assert!(!starts_with("ab", "abc"));
    assert!(!starts_with("abc", "b"));
}

#[test]
fn metadata_is_visible_ascii() {
    assert!(check_metadata_text(&bytes("a b\t~")));
    assert!(check_metadata_text(&vec![]));
    assert!(!check_metadata_text(&vec![10]));
    assert!(!check_metadata_text(&vec![127]));
    assert!(!check_metadata_text(&vec![0xc3, 0xa9]));
}

#[test]
fn metadata_names_a_client_or_says_why_not() {
    assert_eq!(client_id_of(&Some(bytes("42"))), Ok(42));
    assert_eq!(client_id_of(&None), Err(OpenError::MissingClientId));
    assert_eq!(client_id_of(&Some(vec![0xff])), Err(OpenError::InvalidMetadata));
    assert_eq!(client_id_of(&Some(bytes("forty"))), Err(OpenError::InvalidNumber));
}

#[test]
fn open_errors_have_a_status() {
    let cases = [
        (OpenError::MissingClientId, StatusCode::Unauthenticated, "missing client-id metadata"),
        (OpenError::InvalidMetadata, StatusCode::InvalidArgument, "invalid client-id metadata"),
        (OpenError::InvalidNumber, StatusCode::InvalidArgument, "invalid client-id number"),
        (OpenError::NotRegistered, StatusCode::NotFound, "client not registered"),
    ];
    for (error, code, message) in cases {
        assert_eq!(error.code(), code);
        assert_eq!(error.message(), message);
    }
}

#[test]
fn a_stream_opens_for_registered_remote_clients_only() {
    let (mut server, _, _) = Server::new_local(MySim);
    let service = ForwarderService {};
    let local = Client::new_local(true, &mut server).unwrap();
    let request = RegisterRequest { client_name: String::new(), step_participant: false };
    let remote = service.register(&mut server, request);
    assert_eq!((local.id(), remote.client_id), (1, 2));
    assert!(service.try_open(&server, &Some(bytes("1"))).is_none());
    let link = service.try_open(&server, &Some(bytes("2"))).unwrap().unwrap();
    assert_eq!(link.client_id, 2);
    let missing = service.try_open(&server, &Some(bytes("3"))).unwrap();
    assert_eq!(missing.err(), Some(OpenError::NotRegistered));
    let unnamed = service.open(&server, &None);
    assert_eq!(unnamed.err(), Some(OpenError::MissingClientId));
}

#[test]
fn a_stream_marks_messages_with_its_client() {
    let (mut server, _, _) = Server::new_local(MySim);
    let service = ForwarderService {};
    let request = RegisterRequest { client_name: "x".to_string(), step_participant: true };
    let id = service.register(&mut server, request).client_id;
    let mut link = service.open(&server, &Some(bytes("+1"))).unwrap();
    let forged = ClientMsg { client_id: 99, body: None };
    assert!(link.on_item(StreamItem::Message(forged)));
    assert!(link.next_outgoing().is_none());
    let info = server.clients.get(&id).unwrap();
    assert_eq!(info.inbound_rx.recv().unwrap(), ClientMsg { client_id: 1, body: None });
    info.outbound_tx.send(ServerMsg::registered(5)).unwrap();
    assert!(matches!(
        link.next_outgoing(),
        Some(StreamItem::Message(msg)) if msg == ServerMsg::registered(5)
    ));
    assert!(link.next_outgoing().is_none());
    assert!(!link.on_item(StreamItem::Error));
    assert!(!link.on_item(StreamItem::End));
    drop(info);
    server.unregister_client(id);
    assert!(matches!(link.next_outgoing(), Some(StreamItem::End)));
}

#[test]
fn the_end_of_a_stream_unregisters_its_client_only() {
    let (mut server, _, _) = Server::new_local(MySim);
    let service = ForwarderService {};
    for _ in 0..3 {
        let request = RegisterRequest { client_name: String::new(), step_participant: true };
        service.register(&mut server, request);
    }
    let link = service.open(&server, &Some(bytes("2"))).unwrap();
    link.close(&mut server);
    assert!(server.clients.contains_key(&1));
    assert!(!server.clients.contains_key(&2));
    assert!(server.clients.contains_key(&3));
    assert_eq!(server.next_client_id, 4);
}

#[test]
fn a_local_client_sends_under_its_id() {
    let (mut server, mut sim_loop, _) = Server::new_local(MySim);
    let mut client = LocalClient::new(&mut server, false).unwrap();
    assert_eq!(client.client_id, 1);
    let actuators = vec![ActuatorCmd { id: 1, value_bits: 0.75f32.to_bits() }];
    client.send(ClientMsgBody::Control(ControlOutput { actuators }));
    server.refresh(&mut sim_loop);
    let event = sim_loop.wait(10);
    server.handle(&mut sim_loop, event);
    assert_eq!(client.recv(), Ok(ServerMsg::error("OK".to_string())));
    assert_eq!(client.try_recv(), None);
    assert_eq!(client.try_iter().next(), None);
    server.finish();
    assert_eq!(client.iter().next(), None);
    assert_eq!(client.recv(), Err(ClientError::Closed));
    assert_eq!(
        LocalClient::describe(ClientError::Closed),
        "failed to receive from server: receiving on an empty and disconnected channel"
    );
}

#[test]
fn a_remote_client_sends_before_it_has_an_id() {
    let (mut client, pending) = RemoteClient::new(true, "127.0.0.1:50051");
    assert_eq!(pending.endpoint, "http://127.0.0.1:50051");
    assert!(pending.request.step_participant);
    assert_eq!(pending.request.client_name, "");
    let update = ParamUpdate { key: "wind".to_string(), f32_bits: 72.0f32.to_bits() };
    client.send(ClientMsgBody::ParamUpdate(update));
    let (mut uplink, downlink) = pending.registered(6);
    assert_eq!(uplink.metadata(), "6");
    let request = uplink.next_request().unwrap();
    assert_eq!(request.client_id, 6);
    assert!(matches!(request.body, Some(ClientMsgBody::ParamUpdate(_))));
    let tick = Tick { seq: 3, time_bits: 0 };
    let downlink = downlink.on_item(StreamItem::Message(ServerMsg::tick(tick))).unwrap();
    assert_eq!(client.recv(), Ok(ServerMsg::tick(tick)));
    assert_eq!(client.try_recv(), None);
    assert_eq!(client.try_iter().next(), None);
    assert!(downlink.on_item(StreamItem::Error).is_none());
    assert_eq!(client.try_recv(), None);
    assert_eq!(client.try_iter().next(), None);
    assert_eq!(client.iter().next(), None);
    assert_eq!(client.recv(), Err(ClientError::Closed));
    assert_eq!(
        RemoteClient::describe(ClientError::Closed),
        "receive failed: receiving on an empty and disconnected channel"
    );
}

#[test]
fn client_errors_have_texts() {
    assert_eq!(
        Client::describe(ClientError::Closed),
        "[remote-client] server closed connection"
    );
    assert_eq!(Client::describe(ClientError::Rejected), "sending on a disconnected channel");
    assert_eq!(ClientError::Exhausted.cause(), "the awaited message did not come");
}

#[test]
fn channel_texts_are_those_of_the_channel() {
    let (tx, rx) = crossbeam_channel::unbounded::<u8>();
    drop(rx);
    assert_eq!(tx.send(1).unwrap_err().to_string(), ClientError::Rejected.cause());
    let (tx, rx) = crossbeam_channel::unbounded::<u8>();
    drop(tx);
    assert_eq!(rx.recv().unwrap_err().to_string(), ClientError::Closed.cause());
}

#[test]
fn a_copied_message_is_the_same() {
    let observation = Observation { encoded: Arc::new(vec![1, 2, 3]) };
    for body in [
        None,
        Some(ServerMsgBody::State(observation)),
        ServerMsg::error("e".to_string()).body,
        ServerMsg::registered(4).body,
        ServerMsg::tick(Tick { seq: 1, time_bits: 2 }).body,
    ] {
        let msg = ServerMsg { body };
        assert_eq!(msg.clone(), msg);
    }
}

#[test]
fn the_stateless_simulation_acknowledges() {
    let mut sim = MySim;
    assert_eq!(f32::from_bits(sim.dt()), 1.0 / 60.0);
    let msg = ClientMsg { client_id: 1, body: Some(ClientMsgBody::StepReady(StepReady {})) };
    assert_eq!(sim.handle_message(msg), Ok(vec![ServerMsg::error("OK".to_string())]));
    assert_eq!(sim.step(), Ok(()));
    assert_eq!(sim.get_tick(), Tick { seq: 0, time_bits: 0 });
}
