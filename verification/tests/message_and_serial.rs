use loop_os::debug::{self, PortAccess, PortWrite, SerialPort, COM1};
use loop_os::debug::serial::{
    init_serial, is_transmit_ready, serial_printf, serial_write_char, transmit_ready, wait_transmit_ready, LINE_STATUS,
};
use loop_os::integration::{init_serial_port, simulate_boot_sequence};
use loop_os::message::{request_message, Message, MessageError, MESSAGE_MAX_WORDS};

/// A line whose status reads always say ready.
fn ready_line(n: usize) -> SerialPort {
    SerialPort::with_inputs(vec![0x20; n])
}

fn data(port: &SerialPort) -> Vec<u8> {
    port.writes().iter().filter(|w| w.port == COM1).map(|w| w.value).collect()
}

#[test]
fn message_push_and_get() {
    let mut m = Message::new();
    assert_eq!(m.push_int(7), Ok(()));
    assert_eq!(m.push_int(9), Ok(()));
    assert_eq!(m.get_int(0), Some(7));
    assert_eq!(m.get_int(1), Some(9));
    assert_eq!(m.get_int(2), None);
    assert_eq!(m.len(), 2);
}

#[test]
fn message_refuses_word_beyond_capacity() {
    let mut m = Message::new();
    for i in 0..MESSAGE_MAX_WORDS {
        assert_eq!(m.push_int(i as u64), Ok(()));
    }
    assert_eq!(m.push_int(1), Err(MessageError::Full));
    assert_eq!(m.len(), MESSAGE_MAX_WORDS);
    assert!(Message::from_words(vec![0; MESSAGE_MAX_WORDS + 1]).is_err());
    assert_eq!(Message::from_words(vec![3, 4]).unwrap().to_words(), vec![3, 4]);
}

#[test]
fn request_message_prefixes_type() {
    let m = request_message(1, &[2, 3, 4]).unwrap();
    assert_eq!(m.to_words(), vec![1, 2, 3, 4]);
    let too_many = vec![0usize; MESSAGE_MAX_WORDS];
    assert_eq!(request_message(1, &too_many).err(), Some(MessageError::Full));
}

#[test]
fn line_channel_sends_low_byte_of_each_character() {
    let mut port = SerialPort::new();
    debug::serial_write_str(&mut port, "hé");
    assert_eq!(data(&port), vec![b'h', 0xE9]);
    debug::serial_write(&mut port, 'A');
    assert_eq!(data(&port), vec![b'h', 0xE9, b'A']);
}

#[test]
fn port_channel_sends_utf8_bytes() {
    let mut port = ready_line(4);
    debug::serial::serial_write_str(&mut port, "hé");
    assert_eq!(data(&port), vec![b'h', 0xC3, 0xA9]);
    serial_write_char(&mut port, '!');
    assert_eq!(data(&port), vec![b'h', 0xC3, 0xA9, b'!']);
}

#[test]
fn printf_conversions() {
    let mut port = ready_line(32);
    serial_printf(&mut port, "id=%s %d %x 100%% %q end%", &["42", "ignored"]);
    assert_eq!(data(&port), b"id=42 42 42 100% %q end".to_vec());
}

#[test]
fn printf_without_arguments() {
    let mut port = ready_line(2);
    serial_printf(&mut port, "a%sb", &[]);
    assert_eq!(data(&port), b"ab".to_vec());
    let mut plain = ready_line(10);
    serial_printf(&mut plain, "plain text", &["x"]);
    let mut direct = SerialPort::new();
    debug::serial_write_str(&mut direct, "plain text");
    assert_eq!(plain.writes(), direct.writes());
}

#[test]
fn init_serial_programs_the_line() {
    let mut port = SerialPort::new();
    init_serial(&mut port);
    let expected = vec![
        PortWrite { port: 0x3F9, value: 0x00 },
        PortWrite { port: 0x3FB, value: 0x80 },
        PortWrite { port: 0x3F8, value: 0x03 },
        PortWrite { port: 0x3F9, value: 0x00 },
        PortWrite { port: 0x3FB, value: 0x03 },
        PortWrite { port: 0x3FA, value: 0xC7 },
        PortWrite { port: 0x3FC, value: 0x0B },
    ];
    assert_eq!(port.writes(), expected);
}

#[test]
fn smoke_test_transcript() {
    let mut port = SerialPort::new();
    simulate_boot_sequence(&mut port);
    let text = String::from_utf8(data(&port)).unwrap();
    assert_eq!(
        text,
        "[ROOT_TASK] Boot sequence complete\n\
         [BROKER] Capability Broker initialized successfully\n\
         [SHELL] Desktop Shell initialized successfully\n\
         [AURA] Aura Orchestrator initialized successfully\n\
         [AURA] Voice command processed successfully\n\
         [SHELL] Requesting app launch capability\n\
         [TEST] Integration smoke test completed\n"
    );
}

#[test]
fn smoke_test_line_setup_adds_loopback_check() {
    let mut port = SerialPort::with_inputs(vec![0xAE, 0x20]);
    init_serial_port(&mut port);
    let writes = port.writes();
    assert_eq!(writes.len(), 10);
    assert_eq!(writes[7], PortWrite { port: 0x3FC, value: 0x1E });
    assert_eq!(writes[8], PortWrite { port: 0x3F8, value: 0xAE });
    assert_eq!(writes[9], PortWrite { port: 0x3FC, value: 0x0F });
    let accesses = port.access_log();
    assert_eq!(accesses.len(), 11);
    assert_eq!(accesses[8], PortAccess::Out(PortWrite { port: 0x3F8, value: 0xAE }));
    assert_eq!(accesses[9], PortAccess::In { port: 0x3F8, value: 0xAE });
    assert_eq!(accesses[10], PortAccess::Out(PortWrite { port: 0x3FC, value: 0x0F }));
}

#[test]
fn transmit_ready_tests_bit_five() {
    assert!(transmit_ready(0x20));
    assert!(transmit_ready(0x60));
    assert!(transmit_ready(0xFF));
    assert!(!transmit_ready(0x00));
    assert!(!transmit_ready(0xDF));
}

#[test]
fn each_byte_waits_for_a_ready_status() {
    let mut port = SerialPort::with_inputs(vec![0x00, 0x01, 0x20, 0x60, 0x20]);
    debug::serial::serial_write_str(&mut port, "ab");
    let expected = vec![
        PortAccess::In { port: LINE_STATUS, value: 0x00 },
        PortAccess::In { port: LINE_STATUS, value: 0x01 },
        PortAccess::In { port: LINE_STATUS, value: 0x20 },
        PortAccess::Out(PortWrite { port: COM1, value: b'a' }),
        PortAccess::In { port: LINE_STATUS, value: 0x60 },
        PortAccess::Out(PortWrite { port: COM1, value: b'b' }),
    ];
    assert_eq!(port.access_log(), expected);
    assert_eq!(data(&port), b"ab".to_vec());
    assert!(is_transmit_ready(&mut port));
}

#[test]
fn waiting_reads_until_ready() {
    let mut port = SerialPort::with_inputs(vec![0x00, 0x00, 0x20, 0x00]);
    wait_transmit_ready(&mut port);
    assert_eq!(port.access_log().len(), 3);
    assert!(port.writes().is_empty());
    assert!(!is_transmit_ready(&mut port));
}

#[test]
fn line_status_port_is_com1_plus_five() {
    assert_eq!(LINE_STATUS, COM1 + 5);
}
