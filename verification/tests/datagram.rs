use udp_listener::config::load_config;
use udp_listener::datagram::{
    bind_address, extract_message, format_log_line, format_warn_line, handle_event,
    is_exit_message, ConfigError, LoopAction, LoopEvent, LoopState, BUFFER_SIZE_IN,
};

fn datagram(bytes: &[u8]) -> LoopEvent {
    let mut buffer = vec![0u8; BUFFER_SIZE_IN];
    let len = bytes.len().min(BUFFER_SIZE_IN);
    buffer[..len].copy_from_slice(&bytes[..len]);
    LoopEvent::Datagram { buffer, len }
}

#[test]
fn hello_is_logged_and_loop_continues() {
    let (action, state) = handle_event(datagram(b"hello"));
    assert_eq!(state, LoopState::Listening);
    match action {
        LoopAction::LogMessage { text } => assert_eq!(text, "hello"),
        _ => panic!("expected a logged message"),
    }
}

#[test]
fn log_line_holds_sender_address_port_and_text() {
    let line = format_log_line("127.0.0.1", "9999", "hello");
    assert_eq!(line, "127.0.0.1:9999 --> SERV | hello");
}

#[test]
fn warn_line_holds_sender_and_error_text() {
    let line = format_warn_line("10.0.0.7", "53", "bad byte");
    assert_eq!(line, "10.0.0.7:53 ->! SERV | Err: Invalid message! - bad byte");
}

#[test]
fn exit_terminates_the_loop() {
    let (action, state) = handle_event(datagram(b"exit"));
    assert_eq!(state, LoopState::Terminated);
    match action {
        LoopAction::LogExit { text } => assert_eq!(text, "exit"),
        _ => panic!("expected the exit notice"),
    }
}

#[test]
fn exit_must_be_exact() {
    let (_, state) = handle_event(datagram(b"exit "));
    assert_eq!(state, LoopState::Listening);
    let (_, state) = handle_event(datagram(b"Exit"));
    assert_eq!(state, LoopState::Listening);
    assert!(is_exit_message("exit"));
    assert!(!is_exit_message("exi"));
    assert!(!is_exit_message("exits"));
}

#[test]
fn invalid_utf8_warns_and_loop_continues() {
    let (action, state) = handle_event(datagram(&[0xff, 0xfe, 0x01]));
    assert_eq!(state, LoopState::Listening);
    match action {
        LoopAction::WarnInvalid { bytes } => assert_eq!(bytes, vec![0xff, 0xfe, 0x01]),
        _ => panic!("expected a warning"),
    }
}

#[test]
fn read_error_stops_the_loop() {
    let (action, state) = handle_event(LoopEvent::ReadError);
    assert_eq!(state, LoopState::Terminated);
    assert!(matches!(action, LoopAction::StopOnError));
}

#[test]
fn oversized_datagram_is_truncated_to_buffer_size() {
    let long = vec![b'a'; BUFFER_SIZE_IN + 476];
    let (action, state) = handle_event(datagram(&long));
    assert_eq!(state, LoopState::Listening);
    match action {
        LoopAction::LogMessage { text } => {
            assert_eq!(text.len(), BUFFER_SIZE_IN);
            assert!(text.bytes().all(|b| b == b'a'));
        },
        _ => panic!("expected a logged message"),
    }
}

#[test]
fn extract_takes_only_the_reported_length() {
    let mut buffer = vec![b'x'; 8];
    buffer[3] = b'y';
    assert_eq!(extract_message(&buffer, 3), b"xxx".to_vec());
    assert_eq!(extract_message(&buffer, 0), Vec::<u8>::new());
    // A length beyond the buffer yields the whole buffer, never stale memory.
    assert_eq!(extract_message(&buffer, 100), buffer);
}

#[test]
fn stale_buffer_bytes_are_never_part_of_the_message() {
    let mut buffer = vec![0u8; BUFFER_SIZE_IN];
    buffer[..5].copy_from_slice(b"fresh");
    buffer[5..10].copy_from_slice(b"stale");
    let (action, _) = handle_event(LoopEvent::Datagram { buffer, len: 5 });
    match action {
        LoopAction::LogMessage { text } => assert_eq!(text, "fresh"),
        _ => panic!("expected a logged message"),
    }
}

#[test]
fn bind_address_joins_ip_and_port() {
    let cfg = load_config(&vec!["ip=127.0.0.1".to_string(), "port=9999".to_string()]);
    assert_eq!(bind_address(&cfg).unwrap(), "127.0.0.1:9999");
}

#[test]
fn missing_ip_is_fatal_before_any_socket() {
    let cfg = load_config(&vec!["port=9999".to_string()]);
    assert_eq!(bind_address(&cfg), Err(ConfigError::MissingIp));
}

#[test]
fn missing_port_is_fatal_before_any_socket() {
    let cfg = load_config(&vec!["ip=127.0.0.1".to_string()]);
    assert_eq!(bind_address(&cfg), Err(ConfigError::MissingPort));
}

#[test]
fn missing_ip_is_reported_before_missing_port() {
    let cfg = load_config(&vec![]);
    assert_eq!(bind_address(&cfg), Err(ConfigError::MissingIp));
}
