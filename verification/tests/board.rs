use std::cell::RefCell;
use std::rc::Rc;

use firmata_board::board::handshake::{port_report_frames, Handshake, HandshakeStage, HandshakeStep};
use firmata_board::board::state::BoardState;
use firmata_board::protocol::encode;
use firmata_board::protocol::types::{I2cReply, Message, PinCapabilities, PinMode};
use firmata_board::protocol::{
    ANALOG_MAPPING_RESPONSE, CAPABILITY_RESPONSE, END_SYSEX, PIN_MODE_IGNORE, PIN_MODE_INPUT,
    PIN_MODE_OUTPUT, PIN_MODE_PWM, REPORT_FIRMWARE, REPORT_VERSION, START_SYSEX,
};
use firmata_board::{Board, Error, IoErrorKind, MockTransport, Transport};

#[test]
fn apply_capability_response() {
    let mut state = BoardState::new();
    state
        .apply(Message::CapabilityResponse {
            pins: vec![
                PinCapabilities {
                    modes: vec![PinMode::Input, PinMode::Output],
                    resolution: 1,
                },
                PinCapabilities {
                    modes: vec![PinMode::Input, PinMode::Output, PinMode::Pwm],
                    resolution: 10,
                },
            ],
        })
        .unwrap();
    assert_eq!(state.pins.len(), 3);
    assert_eq!(state.pins[1].modes.len(), 2);
}

#[test]
fn pin_out_of_bounds() {
    let state = BoardState::new();
    assert!(state.validate_pin(0).is_err());
}

fn two_pin_state() -> BoardState {
    let mut state = BoardState::new();
    state
        .apply(Message::CapabilityResponse {
            pins: vec![
                PinCapabilities {
                    modes: vec![PinMode::Input, PinMode::Output],
                    resolution: 1,
                },
                PinCapabilities {
                    modes: vec![PinMode::Output, PinMode::Pwm],
                    resolution: 8,
                },
            ],
        })
        .unwrap();
    state
}

#[test]
fn capability_response_builds_pins() {
    let state = two_pin_state();
    assert_eq!(state.pin_count(), 3);
    assert_eq!(state.pins[0].mode, PinMode::Analog);
    assert_eq!(state.pins[0].resolution, 10);
    assert_eq!(state.pins[1].mode, PinMode::Input);
    assert_eq!(state.pins[2].mode, PinMode::Output);
    assert_eq!(state.pins[2].resolution, 8);
    assert_eq!(state.pins[2].value, 0);
}

#[test]
fn validate_and_supports_mode() {
    let state = two_pin_state();
    assert!(state.validate_pin(2).is_ok());
    match state.validate_pin(3) {
        Err(Error::PinOutOfBounds { pin, max }) => {
            assert_eq!(pin, 3);
            assert_eq!(max, 2);
        }
        other => panic!("unexpected {:?}", other),
    }
    assert!(state.supports_mode(2, PinMode::Pwm).unwrap());
    assert!(!state.supports_mode(1, PinMode::Pwm).unwrap());
    assert!(state.supports_mode(7, PinMode::Pwm).is_err());
    match BoardState::new().validate_pin(0) {
        Err(Error::PinOutOfBounds { pin: 0, max: 0 }) => {}
        other => panic!("unexpected {:?}", other),
    }
}

#[test]
fn versions_become_text() {
    let mut state = BoardState::new();
    state
        .apply(Message::ProtocolVersion { major: 2, minor: 5 })
        .unwrap();
    assert_eq!(state.protocol_version, "2.5");
    state
        .apply(Message::ReportFirmware {
            major: 255,
            minor: 10,
            name: "StandardFirmata.ino".to_string(),
        })
        .unwrap();
    assert_eq!(state.firmware_version, "255.10");
    assert_eq!(state.firmware_name, "StandardFirmata.ino");
}

#[test]
fn reports_update_cached_values() {
    let mut state = two_pin_state();
    state.apply(Message::Analog { pin: 2, value: 700 }).unwrap();
    assert_eq!(state.pins[2].value, 700);
    state.apply(Message::Analog { pin: 9, value: 1 }).unwrap();
    state
        .apply(Message::Digital {
            port: 0,
            mask: 0b0000_0110,
        })
        .unwrap();
    assert_eq!(state.pins[1].value, 1);
    assert_eq!(state.pins[2].value, 700);
    state
        .apply(Message::PinStateResponse {
            pin: 2,
            mode: PinMode::Pwm,
            value: 42,
        })
        .unwrap();
    assert_eq!(state.pins[2].mode, PinMode::Pwm);
    assert_eq!(state.pins[2].modes, vec![PinMode::Pwm]);
    assert_eq!(state.pins[2].value, 42);
}

#[test]
fn analog_mapping_marks_analog_pins() {
    let mut state = two_pin_state();
    state
        .apply(Message::AnalogMappingResponse {
            mapping: vec![127, 127, 0],
        })
        .unwrap();
    assert_eq!(state.pins[1].mode, PinMode::Input);
    assert_eq!(state.pins[2].mode, PinMode::Analog);
    assert_eq!(state.pins[2].modes, vec![PinMode::Analog]);
    assert_eq!(state.pins[2].resolution, 10);
}

#[test]
fn i2c_replies_queue_up() {
    let mut state = BoardState::new();
    state.apply(Message::I2cReply(I2cReply::default())).unwrap();
    state
        .apply(Message::I2cReply(I2cReply {
            address: 9,
            register: 0,
            data: vec![1],
        }))
        .unwrap();
    assert_eq!(state.i2c_replies.len(), 2);
    assert_eq!(state.i2c_replies[1].data, vec![1]);
}

#[test]
fn port_count_rounds_up() {
    let mut state = BoardState::new();
    assert_eq!(state.port_count(), 0);
    state
        .apply(Message::CapabilityResponse {
            pins: vec![
                PinCapabilities {
                    modes: vec![PinMode::Input],
                    resolution: 1
                };
                20
            ],
        })
        .unwrap();
    assert_eq!(state.pin_count(), 21);
    assert_eq!(state.port_count(), 3);
    let frames = port_report_frames(&state);
    assert_eq!(frames, vec![vec![0xD0, 1], vec![0xD1, 1], vec![0xD2, 1]]);
}

/// A transport that shares what it writes with the test.
struct Recorder {
    written: Rc<RefCell<Vec<u8>>>,
    incoming: Vec<u8>,
    fail_writes: bool,
}

impl Transport for Recorder {
    fn write_all(&mut self, data: &[u8]) -> Result<(), IoErrorKind> {
        if self.fail_writes {
            return Err(IoErrorKind::WouldBlock);
        }
        self.written.borrow_mut().extend_from_slice(data);
        Ok(())
    }

    fn read_byte(&mut self) -> Result<u8, IoErrorKind> {
        if self.incoming.is_empty() {
            Err(IoErrorKind::TimedOut)
        } else {
            Ok(self.incoming.remove(0))
        }
    }

    fn flush(&mut self) -> Result<(), IoErrorKind> {
        Ok(())
    }
}

fn recorder(incoming: &[u8]) -> (Recorder, Rc<RefCell<Vec<u8>>>) {
    let written = Rc::new(RefCell::new(Vec::new()));
    (
        Recorder {
            written: written.clone(),
            incoming: incoming.to_vec(),
            fail_writes: false,
        },
        written,
    )
}

fn uno_capability_response() -> Vec<u8> {
    vec![
        START_SYSEX,
        CAPABILITY_RESPONSE,
        PIN_MODE_INPUT,
        1,
        PIN_MODE_OUTPUT,
        1,
        PIN_MODE_IGNORE,
        PIN_MODE_INPUT,
        1,
        PIN_MODE_OUTPUT,
        1,
        PIN_MODE_PWM,
        10,
        PIN_MODE_IGNORE,
        END_SYSEX,
    ]
}

fn uno_analog_mapping() -> Vec<u8> {
    vec![
        START_SYSEX,
        ANALOG_MAPPING_RESPONSE,
        127,
        127,
        127,
        127,
        127,
        127,
        127,
        127,
        127,
        127,
        127,
        127,
        127,
        127,
        2,
        2,
        2,
        2,
        2,
        2,
        END_SYSEX,
    ]
}

/// Runs the handshake over the board's incoming bytes, the way a driver
/// does, and returns the steps taken.
fn drive_handshake<T: Transport>(board: &mut Board<T>) -> Vec<HandshakeStep> {
    let mut steps = Vec::new();
    let mut hs = board.begin_handshake().unwrap();
    assert_eq!(hs, Handshake::new());
    while !hs.is_complete() {
        let byte = board.read_byte().unwrap();
        if let Some(msg) = board.handle_byte(byte).unwrap() {
            let mut decided = hs;
            steps.push(decided.on_message(&msg));
            board.advance_handshake(&mut hs, &msg).unwrap();
            assert_eq!(hs, decided);
        }
    }
    steps
}

#[test]
fn handshake_out_of_order_version_first() {
    let mut incoming = vec![REPORT_VERSION, 2, 5];
    incoming.extend([START_SYSEX, REPORT_FIRMWARE, 2, 5, b'S', b't', b'd', END_SYSEX]);
    incoming.extend(uno_capability_response());
    incoming.extend(uno_analog_mapping());
    let (transport, written) = recorder(&incoming);
    let mut board = Board::from_transport(transport);
    let steps = drive_handshake(&mut board);
    assert_eq!(
        steps,
        vec![
            HandshakeStep::Wait,
            HandshakeStep::QueryCapabilities,
            HandshakeStep::Wait,
            HandshakeStep::Finished
        ]
    );
    assert_eq!(board.state().protocol_version, "2.5");
    assert!(!board.state().firmware_name.is_empty());
    assert!(board.state().pin_count() > 1);
    assert_eq!(board.protocol_version(), "2.5");
    assert_eq!(board.firmware_version(), "2.5");
    assert_eq!(board.firmware_name(), "Std");
    let mut expected = encode::query_firmware();
    expected.extend(encode::query_capabilities());
    expected.extend(encode::query_analog_mapping());
    expected.extend(encode::report_digital(0, true));
    assert_eq!(*written.borrow(), expected);
}

#[test]
fn handshake_on_a_mock_succeeds() {
    let mut t = MockTransport::new();
    t.push_read(&[REPORT_VERSION, 2, 5]);
    t.push_read(&[START_SYSEX, REPORT_FIRMWARE, 2, 5, b'S', b't', b'd', END_SYSEX]);
    t.push_read(&uno_capability_response());
    t.push_read(&uno_analog_mapping());
    let mut board = Board::from_transport(t);
    let steps = drive_handshake(&mut board);
    assert_eq!(steps.last(), Some(&HandshakeStep::Finished));
    assert_eq!(board.state().protocol_version, "2.5");
    assert!(!board.state().firmware_name.is_empty());
    assert!(board.state().pin_count() > 1);
    assert!(board.read_byte().is_err());
}

#[test]
fn advance_handshake_sends_what_each_stage_calls_for() {
    let (transport, written) = recorder(&[]);
    let mut board = Board::from_transport(transport);
    let mut hs = Handshake::new();
    let version = Message::ProtocolVersion { major: 2, minor: 5 };
    board.advance_handshake(&mut hs, &version).unwrap();
    assert!(written.borrow().is_empty());
    let firmware = Message::ReportFirmware { major: 2, minor: 5, name: "Std".to_string() };
    board.advance_handshake(&mut hs, &firmware).unwrap();
    let mut expected = encode::query_capabilities();
    expected.extend(encode::query_analog_mapping());
    assert_eq!(*written.borrow(), expected);
    written.borrow_mut().clear();
    board.state_mut().apply(Message::CapabilityResponse {
        pins: vec![PinCapabilities { modes: vec![PinMode::Output], resolution: 1 }; 10],
    });
    board.advance_handshake(&mut hs, &Message::AnalogMappingResponse { mapping: vec![127; 10] }).unwrap();
    assert!(written.borrow().is_empty());
    let caps = Message::CapabilityResponse {
        pins: vec![PinCapabilities { modes: vec![PinMode::Output], resolution: 1 }; 10],
    };
    board.advance_handshake(&mut hs, &caps).unwrap();
    assert!(hs.is_complete());
    let mut reports = encode::report_digital(0, true);
    reports.extend(encode::report_digital(1, true));
    assert_eq!(*written.borrow(), reports);
    written.borrow_mut().clear();
    board.advance_handshake(&mut hs, &version).unwrap();
    assert!(written.borrow().is_empty());
}

#[test]
fn advance_handshake_stops_at_a_failed_write() {
    let (mut transport, written) = recorder(&[]);
    transport.fail_writes = true;
    let mut board = Board::from_transport(transport);
    let mut hs = Handshake::new();
    board.advance_handshake(&mut hs, &Message::ProtocolVersion { major: 2, minor: 5 }).unwrap();
    let firmware = Message::ReportFirmware { major: 2, minor: 5, name: "Std".to_string() };
    assert!(matches!(
        board.advance_handshake(&mut hs, &firmware),
        Err(Error::StdIoError { kind: IoErrorKind::WouldBlock })
    ));
    assert_eq!(hs.stage, HandshakeStage::Describe);
    assert!(written.borrow().is_empty());
}

#[test]
fn handshake_timeout_reasons() {
    let mut hs = Handshake::new();
    match hs.timeout_error() {
        Error::HandshakeFailed { reason } => {
            assert_eq!(reason, "timed out waiting for firmware/version")
        }
        other => panic!("unexpected {:?}", other),
    }
    assert_eq!(
        hs.on_message(&Message::ReportFirmware {
            major: 2,
            minor: 5,
            name: String::new()
        }),
        HandshakeStep::Wait
    );
    assert_eq!(
        hs.on_message(&Message::ProtocolVersion { major: 2, minor: 5 }),
        HandshakeStep::QueryCapabilities
    );
    assert_eq!(hs.stage, HandshakeStage::Describe);
    match hs.timeout_error() {
        Error::HandshakeFailed { reason } => {
            assert_eq!(reason, "timed out waiting for capabilities/mapping")
        }
        other => panic!("unexpected {:?}", other),
    }
    assert_eq!(
        hs.on_message(&Message::AnalogMappingResponse { mapping: vec![] }),
        HandshakeStep::Wait
    );
    assert_eq!(
        hs.on_message(&Message::CapabilityResponse { pins: vec![] }),
        HandshakeStep::Finished
    );
    assert!(hs.is_complete());
}

fn connected_board() -> (Board<Recorder>, Rc<RefCell<Vec<u8>>>) {
    let (transport, written) = recorder(&uno_capability_response());
    let mut board = Board::from_transport(transport);
    loop {
        let byte = board.read_byte().unwrap();
        if board.handle_byte(byte).unwrap().is_some() {
            break;
        }
    }
    written.borrow_mut().clear();
    (board, written)
}

#[test]
fn pin_operations_send_their_frames() {
    let (mut board, written) = connected_board();
    board.set_pin_mode(2, PinMode::Output).unwrap();
    assert_eq!(board.state().pins[2].mode, PinMode::Output);
    assert_eq!(board.state().pins[2].modes, vec![PinMode::Output]);
    board.digital_write(2, 1).unwrap();
    assert_eq!(board.state().pins[2].value, 1);
    board.analog_write(1, 300).unwrap();
    board.servo_config(1, 600, 2400).unwrap();
    board.pin_state_query(2).unwrap();
    let mut expected = encode::set_pin_mode(2, PinMode::Output);
    expected.extend(encode::set_digital_pin_value(2, 1));
    expected.extend(encode::analog_write(1, 300));
    expected.extend(encode::servo_config(1, 600, 2400));
    expected.extend(encode::pin_state_query(2));
    assert_eq!(*written.borrow(), expected);
}

#[test]
fn digital_port_write_carries_the_cached_port() {
    let (mut board, written) = connected_board();
    board.digital_write(1, 1).unwrap();
    written.borrow_mut().clear();
    board.digital_port_write(2, 1).unwrap();
    assert_eq!(*written.borrow(), encode::digital_port_write(0, 0b110));
    written.borrow_mut().clear();
    board.digital_port_write(1, 0).unwrap();
    assert_eq!(*written.borrow(), encode::digital_port_write(0, 0b100));
    assert_eq!(board.state().pins[1].value, 0);
}

#[test]
fn unknown_pins_are_refused_without_sending() {
    let (mut board, written) = connected_board();
    assert!(matches!(
        board.set_pin_mode(3, PinMode::Output),
        Err(Error::PinOutOfBounds { pin: 3, max: 2 })
    ));
    assert!(board.digital_write(9, 1).is_err());
    assert!(board.digital_port_write(9, 1).is_err());
    assert!(board.analog_write(200, 1).is_err());
    assert!(board.servo_config(3, 1, 2).is_err());
    assert!(board.pin_state_query(3).is_err());
    assert!(written.borrow().is_empty());
}

#[test]
fn analog_write_beyond_sixteen_is_extended() {
    let mut incoming = vec![START_SYSEX, CAPABILITY_RESPONSE];
    for _ in 0..20 {
        incoming.extend([PIN_MODE_INPUT, 1, PIN_MODE_IGNORE]);
    }
    incoming.push(END_SYSEX);
    let (transport, written) = recorder(&incoming);
    let mut board = Board::from_transport(transport);
    loop {
        let byte = board_byte(&mut board);
        if board.handle_byte(byte).unwrap().is_some() {
            break;
        }
    }
    board.analog_write(18, 1000).unwrap();
    assert_eq!(*written.borrow(), encode::extended_analog_write(18, 1000));
    assert_eq!(board.state().pins[18].value, 1000);
}

fn board_byte<T: Transport>(board: &mut Board<T>) -> u8 {
    board.read_byte().unwrap()
}

#[test]
fn failed_write_reports_io_error() {
    let (mut board, _) = connected_board();
    let (mut failing, _) = recorder(&[]);
    failing.fail_writes = true;
    let mut other = Board::from_transport(failing);
    assert!(matches!(
        other.send(&[1, 2]),
        Err(Error::StdIoError {
            kind: IoErrorKind::WouldBlock
        })
    ));
    assert!(matches!(
        other.read_byte(),
        Err(Error::StdIoError {
            kind: IoErrorKind::TimedOut
        })
    ));
    board.report_digital(0, true).unwrap();
    board.report_analog(0, false).unwrap();
    board.i2c_config(0).unwrap();
    board.i2c_read(9, 3).unwrap();
    board.i2c_write(9, b"g").unwrap();
    board.sampling_interval(19).unwrap();
}

#[test]
fn i2c_replies_are_taken_oldest_first() {
    let mut incoming = vec![START_SYSEX, 0x77, 9, 0, 0, 0, 1, 0, END_SYSEX];
    incoming.extend([START_SYSEX, 0x77, 9, 0, 0, 0, 2, 0, END_SYSEX]);
    let (transport, _) = recorder(&incoming);
    let mut board = Board::from_transport(transport);
    let mut seen = 0;
    while seen < 2 {
        let byte = board.read_byte().unwrap();
        if board.handle_byte(byte).unwrap().is_some() {
            seen += 1;
        }
    }
    assert_eq!(board.take_i2c_reply().unwrap().data, vec![1]);
    assert_eq!(board.take_i2c_reply().unwrap().data, vec![2]);
    assert!(board.take_i2c_reply().is_none());
}

#[test]
fn transient_errors() {
    assert!(Error::StdIoError {
        kind: IoErrorKind::TimedOut
    }
    .is_transient());
    assert!(Error::StdIoError {
        kind: IoErrorKind::Interrupted
    }
    .is_transient());
    assert!(Error::StdIoError {
        kind: IoErrorKind::WouldBlock
    }
    .is_transient());
    assert!(!Error::StdIoError {
        kind: IoErrorKind::UnexpectedEof
    }
    .is_transient());
    assert!(!Error::BadByte { byte: 0 }.is_transient());
    assert!(!Error::MessageTooShort.is_transient());
}

#[test]
fn board_over_mock_transport() {
    let mut mock = MockTransport::new();
    mock.push_read(&[REPORT_VERSION, 2, 5]);
    let mut board = Board::from_transport(mock);
    let mut got = None;
    for _ in 0..3 {
        let byte = board.read_byte().unwrap();
        got = board.handle_byte(byte).unwrap();
    }
    assert_eq!(got, Some(Message::ProtocolVersion { major: 2, minor: 5 }));
    assert_eq!(board.protocol_version(), "2.5");
    assert!(board.read_byte().is_err());
}

#[test]
fn board_to_string_names_versions() {
    let mut incoming = vec![REPORT_VERSION, 2, 5];
    incoming.extend([START_SYSEX, REPORT_FIRMWARE, 2, 4, b'S', b't', b'd', END_SYSEX]);
    let (transport, _) = recorder(&incoming);
    let mut board = Board::from_transport(transport);
    let mut seen = 0;
    while seen < 2 {
        let byte = board.read_byte().unwrap();
        if board.handle_byte(byte).unwrap().is_some() {
            seen += 1;
        }
    }
    assert_eq!(
        board.to_string(),
        "Board { firmware=Std, version=2.4, protocol=2.5 }"
    );
}

fn ten_output_pins<T: Transport>(board: &mut Board<T>) {
    board.state_mut().apply(Message::CapabilityResponse {
        pins: vec![PinCapabilities { modes: vec![PinMode::Output], resolution: 1 }; 10],
    });
}

#[test]
fn port_write_keeps_the_cached_bits_of_the_port() {
    let (transport, written) = recorder(&[]);
    let mut board = Board::from_transport(transport);
    ten_output_pins(&mut board);
    board.state_mut().pins[1].value = 1;
    board.digital_port_write(3, 1).unwrap();
    assert_eq!(*written.borrow(), vec![0x90, 0b1010, 0]);
    assert_eq!(board.state().pins[3].value, 1);
    assert_eq!(board.state().pins[1].value, 1);
}

#[test]
fn a_failed_write_leaves_the_mode_but_keeps_the_written_level() {
    let (mut transport, _) = recorder(&[]);
    transport.fail_writes = true;
    let mut board = Board::from_transport(transport);
    ten_output_pins(&mut board);
    let before = board.state().pins[2].mode;
    assert!(matches!(
        board.set_pin_mode(2, PinMode::Pwm),
        Err(Error::StdIoError { kind: IoErrorKind::WouldBlock })
    ));
    assert_eq!(board.state().pins[2].mode, before);
    assert!(matches!(
        board.analog_write(2, 77),
        Err(Error::StdIoError { kind: IoErrorKind::WouldBlock })
    ));
    assert_eq!(board.state().pins[2].value, 77);
    assert!(matches!(
        board.digital_write(3, 1),
        Err(Error::StdIoError { kind: IoErrorKind::WouldBlock })
    ));
    assert_eq!(board.state().pins[3].value, 1);
}

#[test]
fn a_mock_board_takes_every_write() {
    let mut board = Board::from_transport(MockTransport::new());
    ten_output_pins(&mut board);
    assert!(board.set_pin_mode(4, PinMode::Output).is_ok());
    assert!(board.digital_write(4, 1).is_ok());
    assert!(board.digital_port_write(5, 1).is_ok());
    assert!(board.analog_write(6, 3).is_ok());
    assert_eq!(board.state().pins[4].value, 1);
    assert!(matches!(
        board.read_byte(),
        Err(Error::StdIoError { kind: IoErrorKind::TimedOut })
    ));
}

#[test]
fn begin_handshake_sends_the_firmware_query() {
    let (transport, written) = recorder(&[]);
    let mut board = Board::from_transport(transport);
    let hs = board.begin_handshake().unwrap();
    assert_eq!(hs.stage, HandshakeStage::Identify);
    assert_eq!(*written.borrow(), encode::query_firmware());
    let (mut failing, _) = recorder(&[]);
    failing.fail_writes = true;
    let mut other = Board::from_transport(failing);
    assert!(matches!(
        other.begin_handshake(),
        Err(Error::StdIoError { kind: IoErrorKind::WouldBlock })
    ));
}

#[test]
fn flush_transport_does_nothing_by_default() {
    let (mut transport, written) = recorder(&[]);
    assert_eq!(transport.flush_transport(), Ok(()));
    assert!(written.borrow().is_empty());
}
