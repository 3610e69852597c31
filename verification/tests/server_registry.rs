use ws_forwarder::protocol::Message;
use ws_forwarder::server::{ServerReaction, ServerState, TunnelError};

type State = ServerState<&'static str, u32, u8>;

fn ack(remote_port: u16, success: bool, error: Option<&str>) -> Message {
    Message::RegisterAck { remote_port, success, error: error.map(|e| e.to_string()) }
}

#[test]
fn client_ids_are_handed_out_in_order() {
    let mut s = State::new();
    assert_eq!(s.add_client("a"), 0);
    assert_eq!(s.add_client("b"), 1);
    assert_eq!(s.client_sender(0), Some(&"a"));
    assert_eq!(s.client_sender(1), Some(&"b"));
    assert_eq!(s.client_sender(2), None);
    assert!(s.has_client(1));
    assert!(!s.has_client(7));
}

#[test]
fn allocators_return_the_counter_and_advance_it() {
    let mut s = State::new();
    assert_eq!(s.allocate_client_id(), 0);
    assert_eq!(s.allocate_client_id(), 1);
    assert_eq!(s.allocate_tunnel_id(), 0);
    assert_eq!(s.allocate_tunnel_id(), 1);
    assert!(s.can_accept_client());
    assert!(s.can_open_tunnel());
}

#[test]
fn free_port_is_registered_and_acknowledged() {
    let mut s = State::new();
    let c = s.add_client("a");
    match s.handle_client_message(c, Message::Register { local_port: 8080, remote_port: 9000 }) {
        ServerReaction::Listen { port, ack: a } => {
            assert_eq!(port, 9000);
            assert_eq!(a, Some(ack(9000, true, None)));
        }
        _ => panic!("expected a listener to be started"),
    }
}

#[test]
fn taken_port_is_refused() {
    let mut s = State::new();
    let a = s.add_client("a");
    let b = s.add_client("b");
    let _ = s.handle_client_message(a, Message::Register { local_port: 1, remote_port: 9000 });
    match s.handle_client_message(b, Message::Register { local_port: 2, remote_port: 9000 }) {
        ServerReaction::Reply(m) => assert_eq!(m, ack(9000, false, Some("Port already in use"))),
        _ => panic!("expected a refusal"),
    }
    // the same client registering twice is refused too
    match s.handle_client_message(a, Message::Register { local_port: 3, remote_port: 9000 }) {
        ServerReaction::Reply(m) => assert_eq!(m, ack(9000, false, Some("Port already in use"))),
        _ => panic!("expected a refusal"),
    }
}

#[test]
fn registration_by_unknown_client_gets_no_answer() {
    let mut s = State::new();
    match s.handle_client_message(5, Message::Register { local_port: 1, remote_port: 7000 }) {
        ServerReaction::Listen { port, ack } => {
            assert_eq!(port, 7000);
            assert!(ack.is_none());
        }
        _ => panic!("expected a listener to be started"),
    }
    // the port is held all the same
    let c = s.add_client("a");
    match s.handle_client_message(c, Message::Register { local_port: 1, remote_port: 7000 }) {
        ServerReaction::Reply(m) => assert_eq!(m, ack(7000, false, Some("Port already in use"))),
        _ => panic!("expected a refusal"),
    }
    // a taken port and an unknown client: nothing to answer
    assert!(matches!(
        s.handle_client_message(9, Message::Register { local_port: 1, remote_port: 7000 }),
        ServerReaction::Nothing
    ));
}

#[test]
fn cleanup_releases_ports_and_returns_listeners() {
    let mut s = State::new();
    let a = s.add_client("a");
    let b = s.add_client("b");
    let _ = s.handle_client_message(a, Message::Register { local_port: 1, remote_port: 9000 });
    let _ = s.handle_client_message(a, Message::Register { local_port: 2, remote_port: 9001 });
    assert_eq!(s.add_listener(a, 10), None);
    assert_eq!(s.add_listener(a, 11), None);
    assert_eq!(s.add_listener(42, 12), Some(12));
    assert_eq!(s.cleanup_client(a), (vec![9000, 9001], vec![10, 11]));
    assert!(!s.has_client(a));
    // both ports can be taken by another client now
    for port in [9000u16, 9001] {
        match s.handle_client_message(b, Message::Register { local_port: 5, remote_port: port }) {
            ServerReaction::Listen { port: p, ack: a2 } => {
                assert_eq!(p, port);
                assert_eq!(a2, Some(ack(port, true, None)));
            }
            _ => panic!("expected the released port to be registered"),
        }
    }
    // cleaning up an unknown client does nothing
    assert_eq!(s.cleanup_client(77), (vec![], vec![]));
    assert!(s.has_client(b));
}

#[test]
fn ping_is_answered_with_pong() {
    let mut s = State::new();
    let c = s.add_client("a");
    assert!(matches!(s.handle_client_message(c, Message::Ping), ServerReaction::Reply(Message::Pong)));
    assert!(matches!(s.handle_client_message(c + 1, Message::Ping), ServerReaction::Nothing));
    assert!(matches!(s.handle_client_message(c, Message::Pong), ServerReaction::Nothing));
}

#[test]
fn unexpected_messages_are_reported() {
    let mut s = State::new();
    let c = s.add_client("a");
    let m = Message::TunnelOpen { tunnel_id: 3, remote_port: 9 };
    match s.handle_client_message(c, m.clone()) {
        ServerReaction::Unexpected(got) => assert_eq!(got, m),
        _ => panic!("expected the message to be reported"),
    }
    let m = Message::RegisterAck { remote_port: 1, success: true, error: None };
    match s.handle_client_message(c, m.clone()) {
        ServerReaction::Unexpected(got) => assert_eq!(got, m),
        _ => panic!("expected the message to be reported"),
    }
}

#[test]
fn tunnels_open_forward_and_close() {
    let mut s = State::new();
    let c = s.add_client("a");
    let (t0, req) = s.open_tunnel(c, 9000, 100).unwrap();
    assert_eq!(t0, 0);
    assert_eq!(req, Message::TunnelOpen { tunnel_id: 0, remote_port: 9000 });
    let (t1, _) = s.open_tunnel(c, 9000, 101).unwrap();
    assert_eq!(t1, 1);
    assert_eq!(s.tunnel_sender(t0), Some(&100));
    match s.handle_client_message(c, Message::TunnelData { tunnel_id: t1, data: vec![1, 2, 3] }) {
        ServerReaction::Forward { tunnel_id, data } => {
            assert_eq!(tunnel_id, t1);
            assert_eq!(data, vec![1, 2, 3]);
        }
        _ => panic!("expected the data to be forwarded"),
    }
    // closing by the client
    assert!(matches!(s.handle_client_message(c, Message::TunnelClose { tunnel_id: t1 }), ServerReaction::Nothing));
    assert_eq!(s.tunnel_sender(t1), None);
    assert!(matches!(
        s.handle_client_message(c, Message::TunnelData { tunnel_id: t1, data: vec![9] }),
        ServerReaction::Nothing
    ));
    // a successful acknowledgement keeps the tunnel, a failed one closes it
    let _ = s.handle_client_message(c, Message::TunnelOpenAck { tunnel_id: t0, success: true, error: None });
    assert_eq!(s.tunnel_sender(t0), Some(&100));
    let _ = s.handle_client_message(
        c,
        Message::TunnelOpenAck { tunnel_id: t0, success: false, error: Some("x".to_string()) },
    );
    assert_eq!(s.tunnel_sender(t0), None);
}

#[test]
fn tunnel_for_unknown_client_is_refused_but_counted() {
    let mut s = State::new();
    assert_eq!(s.open_tunnel(3, 9000, 7), Err(TunnelError::ClientNotFound));
    assert_eq!(s.tunnel_sender(0), Some(&7));
    assert_eq!(s.close_tunnel(0), Some(7));
    assert_eq!(s.close_tunnel(0), None);
    let c = s.add_client("a");
    let (t, _) = s.open_tunnel(c, 1, 8).unwrap();
    assert_eq!(t, 1);
}

#[test]
fn tunnel_messages_go_only_to_known_clients() {
    let mut s = State::new();
    let c = s.add_client("a");
    assert_eq!(
        s.tunnel_data(c, 4, vec![7, 8]),
        Some(Message::TunnelData { tunnel_id: 4, data: vec![7, 8] })
    );
    assert_eq!(s.tunnel_data(c + 1, 4, vec![7]), None);
    assert_eq!(s.tunnel_finished(c, 4), Some(Message::TunnelClose { tunnel_id: 4 }));
    let _ = s.cleanup_client(c);
    assert_eq!(s.tunnel_finished(c, 4), None);
}
