use radar_link::{
    classify_command, handle_command, handle_read, parse_command, Command, ConnectionRegistry,
    SessionStep,
};

fn registry_with_one() -> (ConnectionRegistry<Vec<u8>>, usize) {
    let mut reg = ConnectionRegistry::new();
    let id = reg.register().unwrap();
    assert!(reg.store_writer(id, Vec::new()));
    (reg, id)
}

#[test]
fn registration_hands_out_increasing_ids_not_ready() {
    let mut reg: ConnectionRegistry<Vec<u8>> = ConnectionRegistry::new();
    let a = reg.register().unwrap();
    let b = reg.register().unwrap();
    assert_eq!((a, b), (0, 1));
    assert!(!reg.is_ready(a));
    assert!(!reg.is_connected(a));
    assert_eq!(reg.ready_count(), 0);
}

#[test]
fn send_data_twice_stays_ready() {
    let (mut reg, id) = registry_with_one();
    assert!(handle_command(&mut reg, id, &Command::SendData).is_none());
    assert!(reg.is_ready(id));
    assert!(handle_command(&mut reg, id, &Command::SendData).is_none());
    assert!(reg.is_ready(id));
    assert_eq!(reg.ready_count(), 1);
}

#[test]
fn stop_twice_stays_not_ready() {
    let (mut reg, id) = registry_with_one();
    handle_command(&mut reg, id, &Command::SendData);
    assert!(handle_command(&mut reg, id, &Command::Stop).is_none());
    assert!(!reg.is_ready(id));
    assert!(handle_command(&mut reg, id, &Command::Stop).is_none());
    assert!(!reg.is_ready(id));
    assert!(reg.is_connected(id));
}

#[test]
fn commands_are_trimmed_before_matching() {
    assert!(matches!(parse_command(b"  SEND_DATA\r\n"), Command::SendData));
    assert!(matches!(parse_command(b"\tSTOP "), Command::Stop));
    assert!(matches!(parse_command(b"SEND_DATA"), Command::SendData));
}

#[test]
fn classify_is_exact() {
    assert!(matches!(classify_command("SEND_DATA"), Command::SendData));
    assert!(matches!(classify_command("STOP"), Command::Stop));
    match classify_command("stop") {
        Command::Unknown { text } => assert_eq!(text, "stop"),
        _ => panic!("lower case is no command"),
    }
}

#[test]
fn invalid_utf8_is_replaced() {
    match parse_command(b"\xffSTOP") {
        Command::Unknown { text } => assert_eq!(text, "\u{FFFD}STOP"),
        _ => panic!("expected an unknown command"),
    }
}

#[test]
fn unknown_command_is_answered_and_keeps_connection() {
    let (mut reg, id) = registry_with_one();
    handle_command(&mut reg, id, &Command::SendData);
    match handle_read(&mut reg, id, Some(&b" HELLO \n"[..])) {
        SessionStep::Reply { text } => assert_eq!(text, "Unknown command: 'HELLO'\n"),
        _ => panic!("expected a reply"),
    }
    assert!(reg.is_ready(id));
    assert!(reg.is_connected(id));
}

#[test]
fn read_of_commands_changes_readiness() {
    let (mut reg, id) = registry_with_one();
    assert!(matches!(handle_read(&mut reg, id, Some(&b"SEND_DATA"[..])), SessionStep::Continue));
    assert!(reg.is_ready(id));
    assert!(matches!(handle_read(&mut reg, id, Some(&b"STOP\n"[..])), SessionStep::Continue));
    assert!(!reg.is_ready(id));
}

#[test]
fn end_of_stream_removes_connection() {
    let (mut reg, id) = registry_with_one();
    handle_command(&mut reg, id, &Command::SendData);
    assert!(matches!(handle_read(&mut reg, id, Some(&b""[..])), SessionStep::Close));
    assert!(!reg.is_ready(id));
    assert!(!reg.is_connected(id));
    assert_eq!(reg.ready_count(), 0);
}

#[test]
fn read_error_removes_connection() {
    let (mut reg, id) = registry_with_one();
    assert!(matches!(handle_read(&mut reg, id, None), SessionStep::Close));
    assert!(!reg.is_connected(id));
    assert!(!reg.remove(id));
}

#[test]
fn writer_can_be_taken_and_put_back() {
    let (mut reg, id) = registry_with_one();
    let w = reg.take_writer(id).unwrap();
    assert!(!reg.is_connected(id));
    assert!(reg.take_writer(id).is_none());
    assert!(reg.store_writer(id, w));
    assert!(reg.is_connected(id));
    assert!(!reg.store_writer(99, Vec::new()));
    assert!(!reg.mark_ready(99));
}

#[test]
fn ids_are_never_reused_after_removal() {
    let mut reg: ConnectionRegistry<Vec<u8>> = ConnectionRegistry::new();
    let a = reg.register().unwrap();
    let b = reg.register().unwrap();
    assert!(reg.remove(b));
    let c = reg.register().unwrap();
    assert_eq!((a, b, c), (0, 1, 2));
    assert!(!reg.is_connected(b));
}
