use device_control::models::Command;

#[test]
fn from_parts_selects_the_variant_by_its_discriminant() {
    assert_eq!(Command::from_parts("Attach", None, None), Some(Command::Attach));
    assert_eq!(Command::from_parts("Detach", None, None), Some(Command::Detach));
    assert_eq!(Command::from_parts("Shutdown", None, None), Some(Command::Shutdown));
    assert_eq!(Command::from_parts("Capture", None, None), Some(Command::Capture));
    assert_eq!(Command::from_parts("heartbeat", None, None), Some(Command::Heartbeat));
    assert_eq!(
        Command::from_parts("Move", Some("up".to_string()), None),
        Some(Command::Move { direction: "up".to_string() })
    );
    assert_eq!(
        Command::from_parts("Zoom", Some("in".to_string()), None),
        Some(Command::Zoom { direction: "in".to_string() })
    );
    assert_eq!(Command::from_parts("SetTarget", None, Some(17)), Some(Command::SetTarget { id: 17 }));
}

#[test]
fn from_parts_ignores_payload_that_the_command_does_not_use() {
    assert_eq!(Command::from_parts("Capture", Some("up".to_string()), Some(1)), Some(Command::Capture));
    assert_eq!(
        Command::from_parts("Move", Some("left".to_string()), Some(1)),
        Some(Command::Move { direction: "left".to_string() })
    );
}

#[test]
fn from_parts_rejects_unknown_discriminants_and_missing_payload() {
    assert_eq!(Command::from_parts("Fly", None, None), None);
    assert_eq!(Command::from_parts("", None, None), None);
    assert_eq!(Command::from_parts("move", Some("up".to_string()), None), None);
    assert_eq!(Command::from_parts("Heartbeat", None, None), None);
    assert_eq!(Command::from_parts("Move", None, None), None);
    assert_eq!(Command::from_parts("Zoom", None, Some(1)), None);
    assert_eq!(Command::from_parts("SetTarget", Some("x".to_string()), None), None);
}

#[test]
fn only_attach_and_detach_control_the_session() {
    assert!(Command::Attach.is_session_control());
    assert!(Command::Detach.is_session_control());
    assert!(!Command::Shutdown.is_session_control());
    assert!(!Command::Capture.is_session_control());
    assert!(!Command::Heartbeat.is_session_control());
    assert!(!Command::SetTarget { id: 1 }.is_session_control());
    assert!(!Command::Move { direction: "up".to_string() }.is_session_control());
}
