use casterm::error::CastermError;
use casterm::pane::SerialMsg;
use casterm::serial::{backend_stop_bits, check_parity, list_ports, Parity, StopBits};
use casterm::serial::{
    apply_newline_mode, connect_failure_message, format_incoming, validate, NewlineMode, SerialConfig,
    SerialConnection, SerialId, SerialState,
};

#[test]
fn newline_mode_converts_bare_lf_to_crlf() {
    let out = apply_newline_mode(b"hello\nworld", NewlineMode::CrLf);
    assert_eq!(out, b"hello\r\nworld");
}

#[test]
fn newline_mode_collapses_existing_crlf_to_single_replacement() {
    let out = apply_newline_mode(b"a\r\nb", NewlineMode::Lf);
    assert_eq!(out, b"a\nb");
}

#[test]
fn newline_mode_pass_through_is_a_no_op() {
    let out = apply_newline_mode(b"a\r\nb\nc\rd", NewlineMode::PassThrough);
    assert_eq!(out, b"a\r\nb\nc\rd");
}

#[test]
fn hex_mode_formats_bytes_as_a_hex_dump() {
    let out = format_incoming(&[0x00, 0x1f, 0xff], true);
    assert_eq!(out, b"00 1f ff \r\n");
}

#[test]
fn non_hex_mode_passes_bytes_through_unchanged() {
    let out = format_incoming(b"raw data", false);
    assert_eq!(out, b"raw data");
}

#[test]
fn hex_mode_breaks_lines_every_sixteen_bytes() {
    let data: Vec<u8> = (0u8..17).collect();
    let out = format_incoming(&data, true);
    let text = String::from_utf8(out).unwrap();
    assert_eq!(
        text,
        "00 01 02 03 04 05 06 07 08 09 0a 0b 0c 0d 0e 0f \r\n10 \r\n"
    );
    assert!(format_incoming(&[], true).is_empty());
}

#[test]
fn newline_mode_cr_replaces_every_line_break() {
    let out = apply_newline_mode(b"a\nb\r\nc\rd", NewlineMode::Cr);
    assert_eq!(out, b"a\rb\rc\rd");
}

#[test]
fn validate_rejects_empty_device_and_zero_baud() {
    let mut config = SerialConfig::new(SerialId(1), String::new());
    match validate(&config) {
        Err(CastermError::Config(m)) => assert_eq!(m, "Serial device path cannot be empty"),
        other => panic!("unexpected {other:?}"),
    }
    config.device = "/dev/ttyUSB0".to_string();
    config.baud_rate = 0;
    match validate(&config) {
        Err(CastermError::Config(m)) => assert_eq!(m, "Serial baud rate must be non-zero"),
        other => panic!("unexpected {other:?}"),
    }
    config.baud_rate = 115200;
    assert!(validate(&config).is_ok());
}

#[test]
fn connect_failure_names_available_ports() {
    let none: Vec<String> = Vec::new();
    assert_eq!(connect_failure_message("busy", &none), "busy (no serial ports detected)");
    let ports = vec!["/dev/ttyS0".to_string(), "/dev/ttyUSB0".to_string()];
    assert_eq!(
        connect_failure_message("busy", &ports),
        "busy (available ports: /dev/ttyS0, /dev/ttyUSB0)"
    );
}

#[test]
fn serial_connection_records_open_and_close() {
    let mut conn = SerialConnection::new(SerialConfig::new(SerialId(7), "/dev/ttyUSB0".to_string()));
    assert_eq!(conn.state, SerialState::Disconnected);
    assert!(conn.connect(Ok(()), None).is_ok());
    assert_eq!(conn.state, SerialState::Connected);
    assert!(conn.error.is_none());
    conn.config.hex_mode = true;
    assert!(conn.hex_mode());
    conn.disconnect();
    assert_eq!(conn.state, SerialState::Disconnected);
    assert!(!conn.hex_mode());
}

#[test]
fn serial_connection_failure_sets_failed_state_and_error() {
    let mut conn = SerialConnection::new(SerialConfig::new(SerialId(8), "/dev/none".to_string()));
    let r = conn.connect(Err("No such file or directory".to_string()), None);
    assert_eq!(conn.state, SerialState::Failed);
    match r {
        Err(CastermError::Serial(m)) => {
            assert!(m.starts_with("No such file or directory ("));
            assert_eq!(conn.error, Some(m));
        }
        other => panic!("unexpected {other:?}"),
    }
}

#[test]
fn backend_line_settings() {
    assert!(check_parity(Parity::NoParity).is_ok());
    assert!(check_parity(Parity::Even).is_ok());
    assert_eq!(
        check_parity(Parity::Mark),
        Err(casterm::error::CastermError::Serial("mark parity is not supported by the serial backend".to_string()))
    );
    assert_eq!(
        check_parity(Parity::Space),
        Err(casterm::error::CastermError::Serial("space parity is not supported by the serial backend".to_string()))
    );
    assert_eq!(backend_stop_bits(StopBits::OneAndHalf), StopBits::One);
    assert_eq!(backend_stop_bits(StopBits::Two), StopBits::Two);
}

#[test]
fn newline_conversion_twice_is_once() {
    let data = b"a\r\nb\nc\rd\n\r".to_vec();
    for mode in [NewlineMode::CrLf, NewlineMode::Lf, NewlineMode::Cr, NewlineMode::PassThrough] {
        let once = apply_newline_mode(&data, mode);
        assert_eq!(apply_newline_mode(&once, mode), once);
    }
    assert_eq!(apply_newline_mode(&data, NewlineMode::Cr), b"a\rb\rc\rd\r\r".to_vec());
}

#[test]
fn serial_ids_are_labelled() {
    assert_eq!(SerialId(0).label(), "serial-0");
    assert_eq!(SerialId(42).label(), "serial-42");
}

#[test]
fn closed_connection_refuses_writes_and_reads_nothing() {
    let mut conn = SerialConnection::new(SerialConfig::new(SerialId(9), "/dev/ttyUSB0".to_string()));
    let mut sent = false;
    let r = conn.write(b"hi", |_b: &[u8]| {
        sent = true;
        Ok(())
    });
    assert_eq!(r, Err(CastermError::Serial("serial port is not open".to_string())));
    assert!(!sent);
    assert!(conn.try_recv(|| Some(SerialMsg::Disconnected)).is_none());
    assert!(conn.connect(Ok(()), None).is_ok());
    conn.disconnect();
    let r = conn.write(b"hi", |_b: &[u8]| Ok(()));
    assert_eq!(r, Err(CastermError::Serial("serial port is not open".to_string())));
    assert!(conn.try_recv(|| Some(SerialMsg::Data(b"x".to_vec()))).is_none());
}

#[test]
fn open_connection_sends_converted_bytes_and_passes_reads_on() {
    let mut config = SerialConfig::new(SerialId(10), "/dev/ttyUSB0".to_string());
    config.newline = NewlineMode::CrLf;
    let mut conn = SerialConnection::new(config);
    assert!(conn.connect(Ok(()), None).is_ok());
    let mut sent: Vec<u8> = Vec::new();
    let r = conn.write(b"ls\n", |b: &[u8]| {
        sent = b.to_vec();
        Ok(())
    });
    assert!(r.is_ok());
    assert_eq!(sent, b"ls\r\n".to_vec());
    let r = conn.write(b"x", |_b: &[u8]| Err("Broken pipe".to_string()));
    assert_eq!(r, Err(CastermError::Serial("write failed: Broken pipe".to_string())));
    assert_eq!(conn.try_recv(|| Some(SerialMsg::Data(b"ok".to_vec()))), Some(SerialMsg::Data(b"ok".to_vec())));
    assert_eq!(conn.try_recv(|| Some(SerialMsg::Disconnected)), Some(SerialMsg::Disconnected));
    assert!(conn.try_recv(|| None).is_none());
}

#[test]
fn failed_connect_lists_enumerated_ports() {
    let mut conn = SerialConnection::new(SerialConfig::new(SerialId(11), "/dev/ttyUSB9".to_string()));
    let ports = Some(vec!["/dev/ttyS0".to_string(), "/dev/ttyACM0".to_string()]);
    let r = conn.connect(Err("failed to open /dev/ttyUSB9: not found".to_string()), ports);
    let expected = "failed to open /dev/ttyUSB9: not found (available ports: /dev/ttyS0, /dev/ttyACM0)".to_string();
    assert_eq!(r, Err(CastermError::Serial(expected.clone())));
    assert_eq!(conn.state, SerialState::Failed);
    assert_eq!(conn.error, Some(expected));
    assert!(!conn.hex_mode());
}

#[test]
fn failed_enumeration_lists_no_ports() {
    assert!(list_ports(None).is_empty());
    assert_eq!(list_ports(Some(vec!["COM3".to_string()])), vec!["COM3".to_string()]);
}
