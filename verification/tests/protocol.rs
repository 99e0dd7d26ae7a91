use firmata_board::protocol::decode::decode_all;
use firmata_board::protocol::encode;
use firmata_board::protocol::sysex::{append_14bit, append_7bit_data, decode_14bit, encode_14bit};
use firmata_board::protocol::types::{I2cReply, Message, PinCapabilities, PinMode};
use firmata_board::protocol::{
    ANALOG_MAPPING_RESPONSE, CAPABILITY_RESPONSE, END_SYSEX, EXTENDED_ANALOG, I2C_REPLY,
    PIN_MODE_IGNORE, PIN_MODE_INPUT, PIN_MODE_OUTPUT, PIN_MODE_PWM, PIN_STATE_QUERY,
    PIN_STATE_RESPONSE, REPORT_FIRMWARE, REPORT_VERSION, SAMPLING_INTERVAL, SERVO_CONFIG,
    START_SYSEX,
};
use firmata_board::{Decoder, Error};

#[test]
fn set_pin_mode_output() {
    assert_eq!(encode::set_pin_mode(13, PinMode::Output), vec![0xF4, 13, 1]);
}

#[test]
fn report_digital_port_0() {
    assert_eq!(encode::report_digital(0, true), vec![0xD0, 1]);
}

#[test]
fn report_analog_a0() {
    assert_eq!(encode::report_analog(0, true), vec![0xC0, 1]);
}

#[test]
fn set_digital_pin_value_high() {
    assert_eq!(encode::set_digital_pin_value(13, 1), vec![0xF5, 13, 1]);
}

#[test]
fn query_firmware_bytes() {
    assert_eq!(
        encode::query_firmware(),
        vec![START_SYSEX, REPORT_FIRMWARE, END_SYSEX]
    );
}

#[test]
fn extended_analog_write_bytes() {
    let data = encode::extended_analog_write(3, 128);
    assert_eq!(data[0], START_SYSEX);
    assert_eq!(data[1], EXTENDED_ANALOG);
    assert_eq!(data[2], 3);
}

#[test]
fn servo_config_bytes() {
    let data = encode::servo_config(3, 600, 2400);
    assert_eq!(data[0], START_SYSEX);
    assert_eq!(data[1], SERVO_CONFIG);
}

#[test]
fn sampling_interval_bytes() {
    let data = encode::sampling_interval(10);
    assert_eq!(data[0], START_SYSEX);
    assert_eq!(data[1], SAMPLING_INTERVAL);
}

#[test]
fn pin_state_query_bytes() {
    assert_eq!(
        encode::pin_state_query(13),
        vec![START_SYSEX, PIN_STATE_QUERY, 13, END_SYSEX]
    );
}

#[test]
fn round_trip_14bit() {
    for value in [0u16, 1, 127, 128, 255, 1023, 16383] {
        let [lo, hi] = encode_14bit(value);
        assert_eq!(decode_14bit(lo, hi), value);
    }
}

#[test]
fn decode_protocol_version() {
    let msgs = decode_all(&[REPORT_VERSION, 2, 5]).unwrap();
    assert_eq!(msgs, vec![Message::ProtocolVersion { major: 2, minor: 5 }]);
}

#[test]
fn decode_analog_message() {
    let data = encode::analog_write(0, 512);
    let msgs = decode_all(&data).unwrap();
    assert_eq!(msgs.len(), 1);
    match &msgs[0] {
        Message::Analog { pin, value } => {
            assert_eq!(*pin, 14);
            assert_eq!(*value, 512);
        }
        _ => panic!("expected analog"),
    }
}

#[test]
fn decode_digital_message() {
    let data = encode::digital_port_write(0, 0b1010);
    let msgs = decode_all(&data).unwrap();
    match &msgs[0] {
        Message::Digital { port, mask } => {
            assert_eq!(*port, 0);
            assert_eq!(*mask, 0b1010);
        }
        _ => panic!("expected digital"),
    }
}

#[test]
fn encode_14bit_exact_halves() {
    assert_eq!(encode_14bit(0x1234), [0x34, 0x24]);
    assert_eq!(encode_14bit(0xFFFF), [0x7F, 0x7F]);
    assert_eq!(decode_14bit(0x34, 0x24), 0x1234);
    assert_eq!(decode_14bit(0x80, 0x01), 0x0080);
}

#[test]
fn append_helpers_extend_the_buffer() {
    let mut buf = vec![9u8];
    append_14bit(&mut buf, 300);
    assert_eq!(buf, vec![9, 44, 2]);
    let mut buf = vec![1u8];
    append_7bit_data(&mut buf, &[0x6F, 0xFF, 0x80]);
    assert_eq!(buf, vec![1, 0x6F, 0, 0x7F, 1, 0, 1]);
}

#[test]
fn every_encoder_gives_its_frame() {
    assert_eq!(encode::query_capabilities(), vec![0xF0, 0x6B, 0xF7]);
    assert_eq!(encode::query_analog_mapping(), vec![0xF0, 0x69, 0xF7]);
    assert_eq!(encode::sampling_interval(1000), vec![0xF0, 0x7A, 0x68, 0x07, 0xF7]);
    assert_eq!(encode::i2c_config(0), vec![0xF0, 0x78, 0, 0, 0xF7]);
    assert_eq!(encode::i2c_read(0x09, 3), vec![0xF0, 0x76, 0x09, 0x08, 3, 0, 0xF7]);
    assert_eq!(
        encode::i2c_write(0x09, b"o"),
        vec![0xF0, 0x76, 0x09, 0x00, 0x6F, 0, 0xF7]
    );
    assert_eq!(encode::report_digital(1, false), vec![0xD1, 0]);
    assert_eq!(encode::report_analog(5, true), vec![0xC5, 1]);
    assert_eq!(encode::analog_write(3, 255), vec![0xE3, 0x7F, 0x01]);
    assert_eq!(encode::digital_port_write(1, 0xFF), vec![0x91, 0x7F, 0x01]);
    assert_eq!(
        encode::extended_analog_write(20, 1000),
        vec![0xF0, 0x6F, 20, 0x68, 0x07, 0xF7]
    );
    assert_eq!(
        encode::servo_config(3, 600, 2400),
        vec![0xF0, 0x70, 3, 0x58, 0x04, 0x60, 0x12, 0xF7]
    );
}

#[test]
fn pin_mode_bytes_round_trip() {
    let all = [
        PinMode::Input,
        PinMode::Output,
        PinMode::Analog,
        PinMode::Pwm,
        PinMode::Servo,
        PinMode::Shift,
        PinMode::I2c,
        PinMode::OneWire,
        PinMode::Stepper,
        PinMode::Encoder,
        PinMode::Serial,
        PinMode::Pullup,
        PinMode::Ignore,
    ];
    for mode in all {
        assert_eq!(PinMode::from_u8(mode.as_u8()), Some(mode));
    }
    assert_eq!(PinMode::Pullup.as_u8(), 11);
    assert_eq!(PinMode::Ignore.as_u8(), 0x7F);
    assert_eq!(PinMode::from_u8(12), None);
    assert_eq!(PinMode::from_u8(0x80), None);
}

#[test]
fn decoder_waits_for_the_last_byte() {
    let mut decoder = Decoder::new();
    assert_eq!(decoder.feed(REPORT_VERSION).unwrap(), None);
    assert_eq!(decoder.feed(2).unwrap(), None);
    assert_eq!(
        decoder.feed(5).unwrap(),
        Some(Message::ProtocolVersion { major: 2, minor: 5 })
    );
    assert_eq!(decoder.feed(START_SYSEX).unwrap(), None);
    assert_eq!(decoder.feed(END_SYSEX).unwrap(), Some(Message::EmptyResponse));
}

#[test]
fn decoder_refuses_a_stray_byte() {
    let mut decoder = Decoder::new();
    match decoder.feed(0x42) {
        Err(Error::BadByte { byte }) => assert_eq!(byte, 0x42),
        other => panic!("unexpected {:?}", other),
    }
    assert_eq!(decoder.feed(REPORT_VERSION).unwrap(), None);
}

#[test]
fn decode_capability_response() {
    let bytes = [
        START_SYSEX,
        CAPABILITY_RESPONSE,
        PIN_MODE_INPUT,
        1,
        PIN_MODE_OUTPUT,
        1,
        PIN_MODE_IGNORE,
        PIN_MODE_INPUT,
        1,
        PIN_MODE_OUTPUT,
        1,
        PIN_MODE_PWM,
        10,
        PIN_MODE_IGNORE,
        END_SYSEX,
    ];
    let msgs = decode_all(&bytes).unwrap();
    assert_eq!(
        msgs,
        vec![Message::CapabilityResponse {
            pins: vec![
                PinCapabilities {
                    modes: vec![PinMode::Input, PinMode::Output],
                    resolution: 1,
                },
                PinCapabilities {
                    modes: vec![PinMode::Input, PinMode::Output, PinMode::Pwm],
                    resolution: 1,
                },
            ],
        }]
    );
}

#[test]
fn decode_capability_response_skips_unknown_modes() {
    let bytes = [START_SYSEX, CAPABILITY_RESPONSE, 1, 1, 0x30, 8, PIN_MODE_IGNORE, END_SYSEX];
    let msgs = decode_all(&bytes).unwrap();
    assert_eq!(
        msgs,
        vec![Message::CapabilityResponse {
            pins: vec![PinCapabilities {
                modes: vec![PinMode::Output],
                resolution: 1,
            }],
        }]
    );
}

#[test]
fn decode_capability_response_without_modes_is_too_short() {
    let bytes = [START_SYSEX, CAPABILITY_RESPONSE, PIN_MODE_IGNORE, END_SYSEX];
    assert!(matches!(decode_all(&bytes), Err(Error::MessageTooShort)));
    let bytes = [START_SYSEX, CAPABILITY_RESPONSE, 0x30, 1, PIN_MODE_IGNORE, END_SYSEX];
    assert!(matches!(decode_all(&bytes), Err(Error::MessageTooShort)));
}

#[test]
fn decode_analog_mapping() {
    let bytes = [START_SYSEX, ANALOG_MAPPING_RESPONSE, 127, 127, 0, 1, END_SYSEX];
    let msgs = decode_all(&bytes).unwrap();
    assert_eq!(
        msgs,
        vec![Message::AnalogMappingResponse {
            mapping: vec![127, 127, 0, 1],
        }]
    );
}

#[test]
fn decode_report_firmware() {
    let bytes = [START_SYSEX, REPORT_FIRMWARE, 2, 5, b'S', b't', b'd', END_SYSEX];
    let msgs = decode_all(&bytes).unwrap();
    assert_eq!(
        msgs,
        vec![Message::ReportFirmware {
            major: 2,
            minor: 5,
            name: "Std".to_string(),
        }]
    );
    let bytes = [START_SYSEX, REPORT_FIRMWARE, 2, 5, END_SYSEX];
    let msgs = decode_all(&bytes).unwrap();
    assert_eq!(
        msgs,
        vec![Message::ReportFirmware {
            major: 2,
            minor: 5,
            name: String::new(),
        }]
    );
    let bytes = [START_SYSEX, REPORT_FIRMWARE, END_SYSEX];
    assert!(matches!(decode_all(&bytes), Err(Error::MessageTooShort)));
}

#[test]
fn decode_report_firmware_with_invalid_name() {
    let bytes = [START_SYSEX, REPORT_FIRMWARE, 2, 5, 0xC3, 0x28, END_SYSEX];
    assert!(matches!(decode_all(&bytes), Err(Error::Utf8Error)));
}

#[test]
fn decode_i2c_reply() {
    let bytes = [
        START_SYSEX, I2C_REPLY, 0x09, 0, 0x01, 0, 0x7F, 0x01, 0x10, 0x00, 0x05, 0x01, END_SYSEX,
    ];
    let msgs = decode_all(&bytes).unwrap();
    assert_eq!(
        msgs,
        vec![Message::I2cReply(I2cReply {
            address: 9,
            register: 1,
            data: vec![0xFF, 0x10, 0x85],
        })]
    );
    let bytes = [START_SYSEX, I2C_REPLY, 0x09, 0, END_SYSEX];
    assert!(matches!(decode_all(&bytes), Err(Error::MessageTooShort)));
}

#[test]
fn decode_pin_state_response() {
    let bytes = [START_SYSEX, PIN_STATE_RESPONSE, 13, 1, 1, END_SYSEX];
    assert_eq!(
        decode_all(&bytes).unwrap(),
        vec![Message::PinStateResponse {
            pin: 13,
            mode: PinMode::Output,
            value: 1,
        }]
    );
    let bytes = [START_SYSEX, PIN_STATE_RESPONSE, 4, END_SYSEX];
    assert_eq!(
        decode_all(&bytes).unwrap(),
        vec![Message::PinStateResponse {
            pin: 4,
            mode: PinMode::Input,
            value: 0,
        }]
    );
    let bytes = [START_SYSEX, PIN_STATE_RESPONSE, 4, 0x30, 1, END_SYSEX];
    assert!(matches!(decode_all(&bytes), Err(Error::BadByte { byte: 0x30 })));
}

#[test]
fn decode_unknown_sysex() {
    let bytes = [START_SYSEX, 0x42, 1, END_SYSEX];
    assert!(matches!(
        decode_all(&bytes),
        Err(Error::UnknownSysEx { code: 0x42 })
    ));
}

#[test]
fn decode_all_stops_at_the_first_error() {
    let bytes = [REPORT_VERSION, 2, 5, 0x10, REPORT_VERSION, 1, 1];
    assert!(matches!(decode_all(&bytes), Err(Error::BadByte { byte: 0x10 })));
    let mut bytes = encode::analog_write(2, 100);
    bytes.extend(encode::digital_port_write(1, 3));
    assert_eq!(
        decode_all(&bytes).unwrap(),
        vec![
            Message::Analog { pin: 16, value: 100 },
            Message::Digital { port: 1, mask: 3 }
        ]
    );
}

#[test]
fn handshake_message_kinds() {
    assert!(Message::ProtocolVersion { major: 2, minor: 5 }.is_handshake_firmware());
    assert!(Message::ReportFirmware {
        major: 2,
        minor: 5,
        name: String::new()
    }
    .is_handshake_firmware());
    assert!(!Message::EmptyResponse.is_handshake_firmware());
    assert!(Message::AnalogMappingResponse { mapping: vec![] }.is_handshake_capabilities());
    assert!(Message::CapabilityResponse { pins: vec![] }.is_handshake_capabilities());
    assert!(!Message::Analog { pin: 14, value: 0 }.is_handshake_capabilities());
}

#[test]
fn one_message_gives_nothing_until_its_last_byte() {
    let mut decoder = Decoder::new();
    let bytes = [START_SYSEX, REPORT_FIRMWARE, 2, 5, b'S', END_SYSEX];
    for &b in &bytes[..bytes.len() - 1] {
        assert!(matches!(decoder.feed(b), Ok(None)));
    }
    assert!(matches!(
        decoder.feed(END_SYSEX),
        Ok(Some(Message::ReportFirmware { major: 2, minor: 5, .. }))
    ));
    assert!(matches!(decoder.feed(REPORT_VERSION), Ok(None)));
    assert!(matches!(decoder.feed(2), Ok(None)));
    assert!(matches!(
        decoder.feed(5),
        Ok(Some(Message::ProtocolVersion { major: 2, minor: 5 }))
    ));
}

#[test]
fn decoder_is_idle_after_an_error() {
    let mut decoder = Decoder::new();
    assert!(matches!(decoder.feed(0x01), Err(Error::BadByte { byte: 0x01 })));
    assert!(matches!(decoder.feed(REPORT_VERSION), Ok(None)));
    assert!(matches!(decoder.feed(1), Ok(None)));
    assert!(matches!(
        decoder.feed(2),
        Ok(Some(Message::ProtocolVersion { major: 1, minor: 2 }))
    ));
}

#[test]
fn writes_decode_in_order() {
    let mut bytes = encode::analog_write(3, 1000);
    bytes.extend(encode::digital_port_write(1, 0b1010));
    bytes.extend(encode::analog_write(0, 16383));
    let messages = decode_all(&bytes).unwrap();
    assert_eq!(
        messages,
        vec![
            Message::Analog { pin: 17, value: 1000 },
            Message::Digital { port: 1, mask: 0b1010 },
            Message::Analog { pin: 14, value: 16383 },
        ]
    );
}
