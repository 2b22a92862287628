use raspi_collector::modbus::{
    build_request, crc16, decode_response, parse_registers, read_holding_request, response_len,
    verify_crc, PollError, ReadOutcome, ResponseProgress, READ_HOLDING_REGISTERS,
};

#[test]
fn crc16_of_empty_is_initial_value() {
    assert_eq!(crc16(&[]), 0xFFFF);
}

#[test]
fn crc16_known_frame() {
    // Standard Modbus example: 01 03 00 00 00 0A → CRC 0xCDC5 (sent C5 CD)
    assert_eq!(crc16(&[0x01, 0x03, 0x00, 0x00, 0x00, 0x0A]), 0xCDC5);
    // CRC-16/MODBUS check value of "123456789"
    assert_eq!(crc16(b"123456789"), 0x4B37);
}

#[test]
fn build_request_layout() {
    let f = build_request(0x01, 0x03, 0x0000, 0x000A);
    assert_eq!(f, [0x01, 0x03, 0x00, 0x00, 0x00, 0x0A, 0xC5, 0xCD]);
    let g = build_request(10, 0x03, 0x1234, 0xABCD);
    assert_eq!(&g[..6], &[10, 0x03, 0x12, 0x34, 0xAB, 0xCD]);
    let crc = crc16(&g[..6]);
    assert_eq!(g[6], (crc & 0xFF) as u8);
    assert_eq!(g[7], (crc >> 8) as u8);
}

#[test]
fn read_holding_request_uses_function_3() {
    let f = read_holding_request(10, 0, 10);
    assert_eq!(f[1], READ_HOLDING_REGISTERS);
    assert_eq!(f, build_request(10, 0x03, 0, 10));
}

#[test]
fn built_requests_pass_crc_check() {
    for slave in [0u8, 1, 10, 247] {
        for start in [0u16, 1, 0x0100, 0xFFFF] {
            let f = build_request(slave, 0x03, start, 10);
            assert!(verify_crc(&f));
        }
    }
}

#[test]
fn verify_crc_rejects_short_and_corrupt() {
    assert!(!verify_crc(&[]));
    assert!(!verify_crc(&[0x01]));
    let mut f = build_request(1, 3, 0, 10);
    f[3] ^= 0x40;
    assert!(!verify_crc(&f));
    // The CRC of an empty payload (0xFFFF) in the last two bytes passes.
    assert!(verify_crc(&[0xFF, 0xFF]));
}

fn response_with(regs: &[u16]) -> Vec<u8> {
    let mut r = vec![10u8, 0x03, (regs.len() * 2) as u8];
    for &v in regs {
        r.push((v >> 8) as u8);
        r.push((v & 0xFF) as u8);
    }
    let crc = crc16(&r);
    r.push((crc & 0xFF) as u8);
    r.push((crc >> 8) as u8);
    r
}

#[test]
fn parse_registers_big_endian() {
    let r = response_with(&[0x0102, 0xFFEE, 7]);
    assert_eq!(parse_registers(&r, 3), vec![0x0102, 0xFFEE, 7]);
    assert_eq!(parse_registers(&r, 0), Vec::<u16>::new());
    assert_eq!(parse_registers(&[], 0), Vec::<u16>::new());
    assert_eq!(parse_registers(&[1, 3], 0), Vec::<u16>::new());
}

#[test]
fn decode_response_checks_crc() {
    let regs = [725u16, 812, 255, 1240, 600, 620, 2530, 72, 254, 0b111];
    let r = response_with(&regs);
    assert_eq!(r.len(), response_len(10));
    match decode_response(&r, 10) {
        Ok(v) => assert_eq!(v, regs.to_vec()),
        Err(_) => panic!("valid response refused"),
    }
    let mut bad = r.clone();
    bad[5] ^= 1;
    match decode_response(&bad, 10) {
        Err(e) => {
            assert!(matches!(e, PollError::CrcMismatch));
            assert_eq!(e.message(), "CRC mismatch");
            assert!(!e.needs_reconnect());
        }
        Ok(_) => panic!("corrupt response accepted"),
    }
}

#[test]
fn response_len_counts_header_data_crc() {
    assert_eq!(response_len(0), 5);
    assert_eq!(response_len(10), 25);
}

#[test]
fn poll_error_messages_and_reconnect() {
    let e = PollError::Timeout { received: 7, expected: 25 };
    assert_eq!(e.message(), "timeout — got 7/25 bytes");
    assert!(!e.needs_reconnect());
    let e = PollError::Read("boom".to_string());
    assert_eq!(e.message(), "Read error: boom");
    assert!(e.needs_reconnect());
    let e = PollError::Write("w".to_string());
    assert_eq!(e.message(), "Write error: w");
    assert!(e.needs_reconnect());
    let e = PollError::BufferClear("c".to_string());
    assert_eq!(e.message(), "Buffer clear error: c");
    assert!(e.needs_reconnect());
}

#[test]
fn response_progress_tracks_reads() {
    let mut p = ResponseProgress::new(25);
    assert!(!p.is_complete());
    assert!(p.record(ReadOutcome::Bytes(10)).is_none());
    assert!(p.record(ReadOutcome::TimedOut).is_none());
    assert_eq!(p.received(), 10);
    assert!(p.record(ReadOutcome::Bytes(15)).is_none());
    assert!(p.is_complete());
    let mut q = ResponseProgress::new(25);
    q.record(ReadOutcome::Bytes(3));
    match q.timeout() {
        PollError::Timeout { received, expected } => assert_eq!((received, expected), (3, 25)),
        _ => panic!("expected timeout"),
    }
    match q.record(ReadOutcome::Failed("io".to_string())) {
        Some(e) => assert_eq!(e.message(), "Read error: io"),
        None => panic!("read failure not reported"),
    }
}

#[test]
fn crc_residue_is_zero_after_appending_crc() {
    for data in [&[][..], &[0x0A, 0x03, 0x00, 0x00, 0x00, 0x0A][..], &[0xFF, 0x00, 0x7E][..]] {
        let c = crc16(data);
        let mut framed = data.to_vec();
        framed.push((c & 0xFF) as u8);
        framed.push((c >> 8) as u8);
        assert_eq!(crc16(&framed), 0);
    }
}

#[test]
fn crc_is_affine_for_equal_lengths() {
    let a = [0x12u8, 0x34, 0x56, 0x78];
    let b = [0xA5u8, 0x00, 0xFF, 0x3C];
    let x: Vec<u8> = a.iter().zip(b.iter()).map(|(p, q)| p ^ q).collect();
    assert_eq!(crc16(&x), crc16(&a) ^ crc16(&b) ^ crc16(&[0u8; 4]));
}

#[test]
fn every_single_bit_error_is_detected() {
    let frame = build_request(10, 3, 0, 10);
    assert!(verify_crc(&frame));
    for i in 0..frame.len() {
        for k in 0..8 {
            let mut e = frame;
            e[i] ^= 1u8 << k;
            assert!(!verify_crc(&e), "byte {i} bit {k}");
        }
    }
}
