use pupynet::protocol::{EncodeError, Introduce, Parser, PeerCmd};
use pupynet::types::{InternalCommand, InternalEvent, Peer, PupynetEvent};
use pupynet::worker::{Action, State, WorkerError};

fn me() -> Peer {
    Peer::new("me".to_string(), "Local".to_string(), Some("bob".to_string()))
}

fn introduce_event(addr: &str, id: &str, name: &str, owner: &str) -> InternalEvent {
    InternalEvent::PeerCmd {
        addr: addr.to_string(),
        cmd: PeerCmd::Introduce(Introduce { id: id.to_string(), name: name.to_string(), owner: owner.to_string() }),
    }
}

fn count_id(state: &State, id: &str) -> usize {
    state.peers().iter().filter(|p| p.id == id).count()
}

#[test]
fn introduction_is_answered_once() {
    let mut state = State::new(me());
    let first = state.handle_internal_event(introduce_event("udp://10.0.0.2:7764", "p1", "One", ""));
    assert_eq!(first.len(), 2);
    match &first[0] {
        Action::SendDatagram { target, bytes } => {
            assert_eq!(target, "10.0.0.2:7764");
            let mut parser = Parser::new();
            parser.parse(bytes);
            match parser.next() {
                Some(PeerCmd::Introduce(i)) => {
                    assert_eq!(i.id, "me");
                    assert_eq!(i.name, "Local");
                    assert_eq!(i.owner, "bob");
                }
                other => panic!("unexpected {:?}", other),
            }
        }
        other => panic!("unexpected {:?}", other),
    }
    assert!(matches!(&first[1], Action::Publish(PupynetEvent::PeerConnected { addr }) if addr == "udp://10.0.0.2:7764"));
    let second = state.handle_internal_event(introduce_event("udp://10.0.0.2:7764", "p1", "One", ""));
    assert!(second.is_empty());
    assert_eq!(count_id(&state, "p1"), 1);
    assert_eq!(state.peers().len(), 1);
}

#[test]
fn repeated_introduction_updates_name_and_owner() {
    let mut state = State::new(me());
    state.handle_internal_event(introduce_event("udp://h:1", "p1", "One", ""));
    let again = state.handle_internal_event(introduce_event("udp://h:1", "p1", "Uno", "carol"));
    assert!(again.is_empty());
    let p = state.peer(&"p1".to_string()).unwrap();
    assert_eq!(p.name, "Uno");
    assert_eq!(p.owner.as_deref(), Some("carol"));
    assert!(p.introduced);
    let p0 = State::new(me());
    assert!(p0.peer(&"p1".to_string()).is_none());
}

#[test]
fn introduction_from_self_is_ignored() {
    let mut state = State::new(me());
    let actions = state.handle_internal_event(introduce_event("udp://h:1", "me", "Local", ""));
    assert!(actions.is_empty());
    assert!(state.peers().is_empty());
}

#[test]
fn ws_reply_needs_a_live_connection() {
    let mut state = State::new(me());
    let actions = state.handle_internal_event(introduce_event("ws://h:2", "peer-two", "Two", ""));
    assert!(matches!(actions[0], Action::Fail(WorkerError::NotConnected)));
    let mut state = State::new(me());
    let connected = state.handle_internal_event(InternalEvent::PeerConnected { addr: "ws://h:2".to_string() });
    assert!(matches!(&connected[0], Action::Publish(PupynetEvent::PeerConnected { addr }) if addr == "ws://h:2"));
    let actions = state.handle_internal_event(introduce_event("ws://h:2", "peer-two", "Two", ""));
    assert!(matches!(&actions[0], Action::SendOnLink { addr, .. } if addr == "ws://h:2"));
    let gone = state.handle_internal_event(InternalEvent::PeerDisconnected { addr: "ws://h:2".to_string() });
    assert!(matches!(&gone[0], Action::Publish(PupynetEvent::PeerDisconnected { addr }) if addr == "ws://h:2"));
    let cmd = PeerCmd::CreateFolder { node_id: "peer-two".into(), path: "d".into() };
    assert!(matches!(state.send(&"ws://h:2".to_string(), &cmd), Action::Fail(WorkerError::NotConnected)));
}

#[test]
fn unknown_scheme_is_a_routing_error() {
    let state = State::new(me());
    let cmd = PeerCmd::CreateFolder { node_id: "n".into(), path: "d".into() };
    assert!(matches!(state.send(&"tcp://h:1".to_string(), &cmd), Action::Fail(WorkerError::UnsupportedScheme)));
    let actions = state.handle_cmd(InternalCommand::PeerCmd { addr: "h:1".to_string(), cmd });
    assert!(matches!(actions[0], Action::Fail(WorkerError::UnsupportedScheme)));
}

#[test]
fn udp_send_carries_the_envelope() {
    let state = State::new(me());
    let cmd = PeerCmd::CreateFolder { node_id: "n".into(), path: "d".into() };
    let expected = cmd.serialize().unwrap();
    match state.send(&"udp://1.2.3.4:5".to_string(), &cmd) {
        Action::SendDatagram { target, bytes } => {
            assert_eq!(target, "1.2.3.4:5");
            assert_eq!(bytes, expected);
        }
        other => panic!("unexpected {:?}", other),
    }
    assert!(matches!(
        state.send(&"udp://1.2.3.4:5".to_string(), &PeerCmd::Hello),
        Action::Fail(WorkerError::Unencodable(EncodeError::Unsupported))
    ));
}

#[test]
fn bind_and_connect_pick_the_websocket_transport() {
    let state = State::new(me());
    let bind = state.handle_cmd(InternalCommand::Bind { addr: "ws://0.0.0.0:8832".to_string() });
    assert!(matches!(&bind[0], Action::Listen { target } if target == "0.0.0.0:8832"));
    let connect = state.handle_cmd(InternalCommand::Connect { addr: "ws://h:9".to_string() });
    assert!(matches!(&connect[0], Action::Dial { addr } if addr == "ws://h:9"));
    let bad = state.handle_cmd(InternalCommand::Bind { addr: "udp://h:9".to_string() });
    assert!(matches!(bad[0], Action::Fail(WorkerError::UnsupportedScheme)));
}

#[test]
fn file_commands_are_not_implemented() {
    let mut state = State::new(me());
    let actions = state.handle_internal_event(InternalEvent::PeerCmd {
        addr: "udp://h:1".to_string(),
        cmd: PeerCmd::RemoveFile { node_id: "me".into(), path: "f".into() },
    });
    assert!(matches!(actions[0], Action::Fail(WorkerError::NotImplemented)));
}
