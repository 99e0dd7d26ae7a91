use firmata_board::board::profiles::BoardProfile;
use firmata_board::protocol::encode;
use firmata_board::protocol::types::{Message, PinCapabilities, PinMode};
use firmata_board::{a, d, AnalogPin, Board, DigitalPin, I2cHandle, MockTransport, PinHandle, PinRef, Uno, Transport};

#[test]
fn uno_pin_helpers() {
    assert_eq!(d(13), DigitalPin(13));
    assert_eq!(a(0), AnalogPin(0));
    assert_eq!(Uno::digital_pin(14), None);
    assert_eq!(Uno::analog_pin(5), Some(AnalogPin(5)));
    assert_eq!(Uno::analog_pin(6), None);
    assert!(Uno::supports_pwm(DigitalPin(3)));
    assert!(!Uno::supports_pwm(DigitalPin(4)));
    assert_eq!(Uno::analog_to_firmata_pin(AnalogPin(0)), 14);
    assert_eq!(Uno::NAME, "Arduino Uno");
    assert_eq!(Uno::PIN_COUNT, 20);
    assert_eq!(Uno::DEFAULT_BAUD, 57_600);
}

#[test]
fn pin_refs_convert() {
    assert_eq!(PinRef::from(d(2)), PinRef::Digital(DigitalPin(2)));
    assert_eq!(PinRef::from(a(1)), PinRef::Analog(AnalogPin(1)));
    assert_eq!(PinRef::from(7u8), PinRef::Raw(7));
}

fn board_with_pins(n: usize) -> Board<MockTransport> {
    let mut board = Board::from_transport(MockTransport::new());
    board
        .state_mut()
        .apply(Message::CapabilityResponse {
            pins: vec![
                PinCapabilities {
                    modes: vec![PinMode::Input, PinMode::Output],
                    resolution: 1
                };
                n
            ],
        })
        .unwrap();
    board
}

#[test]
fn pin_handle_drives_its_pin() {
    let mut board = board_with_pins(20);
    {
        let mut pin: PinHandle<'_, MockTransport, Uno> = PinHandle::new(&mut board, d(13).into());
        assert_eq!(pin.firmata_pin(), 13);
        pin.output().unwrap().write_digital(true).unwrap();
        assert_eq!(pin.value(), 1);
        pin.enable_reporting().unwrap();
        pin.disable_reporting().unwrap();
    }
    assert_eq!(board.state().pins[13].mode, PinMode::Output);
    {
        let mut pin: PinHandle<'_, MockTransport, Uno> = PinHandle::new(&mut board, a(0).into());
        assert_eq!(pin.firmata_pin(), 14);
        pin.analog_input().unwrap().enable_reporting().unwrap();
        pin.write_analog(77).unwrap();
        assert_eq!(pin.value(), 77);
        pin.input().unwrap();
        pin.pwm().unwrap();
        pin.servo().unwrap();
        pin.pullup().unwrap();
        pin.mode(PinMode::Output).unwrap();
    }
    let mut pin: PinHandle<'_, MockTransport, Uno> = PinHandle::new(&mut board, PinRef::Raw(40));
    assert!(pin.output().is_err());
    assert_eq!(pin.value(), 0);
}

#[test]
fn i2c_handle_sends_requests() {
    let mut board = Board::from_transport(MockTransport::new());
    {
        let mut i2c = I2cHandle::new(&mut board);
        i2c.config(0).unwrap();
        i2c.write(0x09, b"o").unwrap();
        i2c.board_mut().i2c_read(0x09, 3).unwrap();
    }
    assert!(board.take_i2c_reply().is_none());
}

#[test]
fn mock_records_board_frames() {
    let mut mock = MockTransport::new();
    mock.write_all(&encode::report_digital(0, true)).unwrap();
    assert_eq!(mock.written(), &[0xD0, 1]);
}
