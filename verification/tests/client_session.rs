use ws_forwarder::client::{tunnel_open_ack, ClientReaction, ClientState};
use ws_forwarder::protocol::Message;
use ws_forwarder::rules::ForwardRule;
use ws_forwarder::session::{frame_step, Frame, FrameStep, Session, SessionCommand, SessionEvent, SessionPhase};

fn rules() -> Vec<ForwardRule> {
    vec![
        ForwardRule { local_port: 8080, remote_port: 9000 },
        ForwardRule { local_port: 3000, remote_port: 3001 },
        ForwardRule { local_port: 4000, remote_port: 9000 },
    ]
}

#[test]
fn tunnel_request_uses_first_matching_rule() {
    let mut c: ClientState<u8> = ClientState::new(rules());
    assert_eq!(c.local_port_for(9000), Some(8080));
    assert_eq!(c.local_port_for(3001), Some(3000));
    assert_eq!(c.local_port_for(1), None);
    match c.handle_server_message(Message::TunnelOpen { tunnel_id: 5, remote_port: 9000 }) {
        ClientReaction::OpenTunnel { tunnel_id, local_port } => {
            assert_eq!(tunnel_id, 5);
            assert_eq!(local_port, 8080);
        }
        _ => panic!("expected a tunnel to be opened"),
    }
}

#[test]
fn tunnel_request_for_unknown_port_is_refused() {
    let mut c: ClientState<u8> = ClientState::new(rules());
    match c.handle_server_message(Message::TunnelOpen { tunnel_id: 5, remote_port: 1234 }) {
        ClientReaction::Send(m) => assert_eq!(
            m,
            Message::TunnelOpenAck {
                tunnel_id: 5,
                success: false,
                error: Some("No local port configured".to_string())
            }
        ),
        _ => panic!("expected a refusal"),
    }
}

#[test]
fn client_answers_ping_and_reports_registration() {
    let mut c: ClientState<u8> = ClientState::new(rules());
    assert!(matches!(c.handle_server_message(Message::Ping), ClientReaction::Send(Message::Pong)));
    assert!(matches!(c.handle_server_message(Message::Pong), ClientReaction::Nothing));
    match c.handle_server_message(Message::RegisterAck {
        remote_port: 9000,
        success: false,
        error: Some("Port already in use".to_string()),
    }) {
        ClientReaction::Registered { remote_port, success, error } => {
            assert_eq!(remote_port, 9000);
            assert!(!success);
            assert_eq!(error.as_deref(), Some("Port already in use"));
        }
        _ => panic!("expected a report"),
    }
    let m = Message::Register { local_port: 1, remote_port: 2 };
    match c.handle_server_message(m.clone()) {
        ClientReaction::Unexpected(got) => assert_eq!(got, m),
        _ => panic!("expected the message to be reported"),
    }
}

#[test]
fn client_tunnels_forward_and_close() {
    let mut c: ClientState<u8> = ClientState::new(rules());
    assert!(matches!(
        c.handle_server_message(Message::TunnelData { tunnel_id: 1, data: vec![1] }),
        ClientReaction::Nothing
    ));
    c.add_tunnel(1, 11);
    c.add_tunnel(2, 22);
    assert_eq!(c.tunnel_sender(1), Some(&11));
    match c.handle_server_message(Message::TunnelData { tunnel_id: 1, data: vec![4, 5] }) {
        ClientReaction::Forward { tunnel_id, data } => {
            assert_eq!(tunnel_id, 1);
            assert_eq!(data, vec![4, 5]);
        }
        _ => panic!("expected the data to be forwarded"),
    }
    assert!(matches!(c.handle_server_message(Message::TunnelClose { tunnel_id: 1 }), ClientReaction::Nothing));
    assert_eq!(c.tunnel_sender(1), None);
    assert_eq!(c.remove_tunnel(2), Some(22));
    assert_eq!(c.remove_tunnel(2), None);
}

#[test]
fn tunnel_open_acknowledgements() {
    assert_eq!(
        tunnel_open_ack(3, None),
        Message::TunnelOpenAck { tunnel_id: 3, success: true, error: None }
    );
    assert_eq!(
        tunnel_open_ack(3, Some("Connection refused (os error 111)")),
        Message::TunnelOpenAck {
            tunnel_id: 3,
            success: false,
            error: Some("Failed to connect to local service: Connection refused (os error 111)".to_string())
        }
    );
}

#[test]
fn frames() {
    assert!(matches!(frame_step(Frame::Binary(vec![1, 2])), FrameStep::Deliver(d) if d == vec![1, 2]));
    assert!(matches!(frame_step(Frame::Close), FrameStep::Stop));
    assert!(matches!(frame_step(Frame::Failed), FrameStep::Stop));
    assert!(matches!(frame_step(Frame::Ping), FrameStep::Ignore));
    assert!(matches!(frame_step(Frame::Other), FrameStep::Ignore));
}

fn register(local_port: u16, remote_port: u16) -> Message {
    Message::Register { local_port, remote_port }
}

#[test]
fn session_registers_every_rule_then_serves() {
    let mut c: ClientState<u8> = ClientState::new(rules());
    let mut s = Session::new();
    assert_eq!(s.phase(), SessionPhase::Connecting);
    let mut sent = Vec::new();
    let mut cmd = s.step(&mut c, SessionEvent::Connected);
    while let SessionCommand::Send(m) = cmd {
        sent.push(m);
        cmd = s.step(&mut c, SessionEvent::Sent);
    }
    assert!(matches!(cmd, SessionCommand::Serve));
    assert_eq!(sent, vec![register(8080, 9000), register(3000, 3001), register(4000, 9000)]);
    assert_eq!(s.phase(), SessionPhase::Serving);
}

#[test]
fn session_retries_after_interruption_and_clears_tunnels() {
    let mut c: ClientState<u8> = ClientState::new(vec![ForwardRule { local_port: 1, remote_port: 2 }]);
    let mut s = Session::new();
    assert!(matches!(s.step(&mut c, SessionEvent::ConnectFailed), SessionCommand::Wait));
    assert!(matches!(s.step(&mut c, SessionEvent::Waited), SessionCommand::Connect));
    assert!(matches!(s.step(&mut c, SessionEvent::Connected), SessionCommand::Send(_)));
    assert!(matches!(s.step(&mut c, SessionEvent::SendFailed), SessionCommand::Wait));
    assert!(matches!(s.step(&mut c, SessionEvent::Waited), SessionCommand::Connect));
    assert!(matches!(s.step(&mut c, SessionEvent::Connected), SessionCommand::Send(_)));
    assert!(matches!(s.step(&mut c, SessionEvent::Sent), SessionCommand::Serve));
    c.add_tunnel(7, 70);
    assert!(matches!(s.step(&mut c, SessionEvent::Ended { interrupted: true }), SessionCommand::Wait));
    assert_eq!(c.tunnel_sender(7), None);
    assert_eq!(s.phase(), SessionPhase::Waiting);
    assert!(matches!(s.step(&mut c, SessionEvent::Waited), SessionCommand::Connect));
    assert!(matches!(s.step(&mut c, SessionEvent::Connected), SessionCommand::Send(_)));
    assert!(matches!(s.step(&mut c, SessionEvent::Sent), SessionCommand::Serve));
    c.add_tunnel(8, 80);
    assert!(matches!(s.step(&mut c, SessionEvent::Ended { interrupted: false }), SessionCommand::Stop));
    assert_eq!(c.tunnel_sender(8), None);
    assert_eq!(s.phase(), SessionPhase::Finished);
}
