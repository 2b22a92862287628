use raspi_collector::uart::{LineBuffer, LineError, READ_COMMAND};

#[test]
fn read_command_bytes() {
    assert_eq!(&READ_COMMAND, b"READ\n");
}

#[test]
fn line_drops_carriage_returns_and_ends_at_newline() {
    let mut l = LineBuffer::new();
    for &b in b"{\"ts\":1}\r" {
        l.push(b);
    }
    assert!(!l.is_done());
    assert_eq!(l.len(), 8);
    l.push(b'\n');
    assert!(l.is_done());
    match l.into_string() {
        Ok(s) => assert_eq!(s, "{\"ts\":1}"),
        Err(_) => panic!("valid line refused"),
    }
}

#[test]
fn invalid_utf8_is_reported() {
    let mut l = LineBuffer::new();
    l.push(0xFF);
    l.push(b'\n');
    match l.into_string() {
        Err(e) => {
            assert!(e.message().starts_with("UTF-8 decode error: "));
            assert!(!e.needs_reconnect());
        }
        Ok(_) => panic!("invalid UTF-8 accepted"),
    }
}

#[test]
fn line_errors() {
    let mut l = LineBuffer::new();
    l.push(b'a');
    l.push(b'\r');
    match l.timeout() {
        LineError::Timeout { received } => assert_eq!(received, 1),
        _ => panic!("expected timeout"),
    }
    assert_eq!(l.timeout().message(), "timeout — got 1 bytes without newline");
    assert!(LineError::Read("x".to_string()).needs_reconnect());
    assert!(LineError::Write("x".to_string()).needs_reconnect());
    assert!(!LineError::BufferClear("x".to_string()).needs_reconnect());
    assert_eq!(LineError::BufferClear("x".to_string()).message(), "Buffer clear error: x");
}
