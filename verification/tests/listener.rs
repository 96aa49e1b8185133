use device_control::listener::{run_listener, Inbound, Listener, Routing};
use device_control::models::Command;
use device_control::session_state::SessionState;

fn move_up() -> Command {
    Command::Move { direction: "up".to_string() }
}

#[test]
fn attach_and_detach_are_applied_and_not_forwarded() {
    let mut listener = Listener::new();
    let mut session = SessionState::new();
    assert_eq!(listener.on_inbound(Inbound::Decoded(Command::Attach), &mut session), Routing::Applied);
    assert!(session.is_attached());
    session.set_target(3);
    let scope = session.scope();
    assert_eq!(listener.on_inbound(Inbound::Decoded(Command::Detach), &mut session), Routing::Applied);
    assert!(!session.is_attached());
    assert_eq!(session.target_id(), None);
    assert!(scope.is_cancelled());
    assert!(listener.is_listening());
}

#[test]
fn other_commands_are_forwarded_unchanged() {
    let mut listener = Listener::new();
    let mut session = SessionState::new();
    for command in [
        move_up(),
        Command::Zoom { direction: "in".to_string() },
        Command::Capture,
        Command::SetTarget { id: 9 },
        Command::Heartbeat,
        Command::Shutdown,
    ] {
        assert_eq!(
            listener.on_inbound(Inbound::Decoded(command.clone()), &mut session),
            Routing::Forward(command)
        );
    }
    assert!(!session.is_attached());
    assert!(listener.is_listening());
}

#[test]
fn what_cannot_be_decoded_is_dropped() {
    let mut listener = Listener::new();
    let mut session = SessionState::new();
    assert_eq!(listener.on_inbound(Inbound::Undecodable, &mut session), Routing::Ignored);
    assert_eq!(listener.on_inbound(Inbound::Other, &mut session), Routing::Ignored);
    assert!(listener.is_listening());
}

#[test]
fn a_transport_failure_stops_the_listener_and_leaves_the_session_attached() {
    let mut listener = Listener::new();
    let mut session = SessionState::new();
    session.attach();
    let scope = session.scope();
    assert_eq!(listener.on_inbound(Inbound::Failed, &mut session), Routing::Stopped);
    assert!(!listener.is_listening());
    assert!(session.is_attached());
    assert!(!scope.is_cancelled());
    assert_eq!(listener.on_inbound(Inbound::Decoded(Command::Detach), &mut session), Routing::Stopped);
    assert!(session.is_attached());
    assert_eq!(listener.on_inbound(Inbound::Decoded(move_up()), &mut session), Routing::Stopped);
}

#[test]
fn a_closed_connection_stops_the_listener() {
    let mut listener = Listener::new();
    let mut session = SessionState::new();
    assert_eq!(listener.on_inbound(Inbound::Closed, &mut session), Routing::Stopped);
    assert!(!listener.is_listening());
}

#[test]
fn a_closed_queue_stops_the_listener() {
    let mut listener = Listener::new();
    let mut session = SessionState::new();
    assert_eq!(listener.on_inbound(Inbound::Decoded(move_up()), &mut session), Routing::Forward(move_up()));
    listener.on_queue_closed();
    assert!(!listener.is_listening());
    assert_eq!(listener.on_inbound(Inbound::Decoded(move_up()), &mut session), Routing::Stopped);
}

#[test]
fn run_listener_forwards_in_arrival_order_and_applies_session_control() {
    let mut session = SessionState::new();
    let queued = run_listener(
        vec![
            Inbound::Decoded(move_up()),
            Inbound::Undecodable,
            Inbound::Decoded(Command::Attach),
            Inbound::Decoded(Command::Capture),
            Inbound::Other,
            Inbound::Decoded(Command::Heartbeat),
        ],
        &mut session,
    );
    assert_eq!(queued, vec![move_up(), Command::Capture, Command::Heartbeat]);
    assert!(session.is_attached());
}

#[test]
fn run_listener_stops_at_the_end_of_the_connection() {
    let mut session = SessionState::new();
    let queued = run_listener(
        vec![
            Inbound::Decoded(Command::Attach),
            Inbound::Decoded(Command::Capture),
            Inbound::Closed,
            Inbound::Decoded(Command::Detach),
            Inbound::Decoded(Command::Heartbeat),
        ],
        &mut session,
    );
    assert_eq!(queued, vec![Command::Capture]);
    assert!(session.is_attached());
}

#[test]
fn run_listener_on_nothing_changes_nothing() {
    let mut session = SessionState::new();
    assert_eq!(run_listener(vec![], &mut session), vec![]);
    assert!(!session.is_attached());
}
