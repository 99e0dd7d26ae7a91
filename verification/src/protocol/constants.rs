//! Command bytes, SysEx sub-commands and pin-mode numbers of the Firmata
//! protocol (version 2.5), as StandardFirmata speaks it.
use vstd::prelude::*;

verus! {

/// First byte of an analog-mapping query (host to board).
pub const ANALOG_MAPPING_QUERY: u8 = 0x69;

/// SysEx reply to an analog-mapping query.
pub const ANALOG_MAPPING_RESPONSE: u8 = 0x6A;

/// SysEx query for the capabilities of every pin.
pub const CAPABILITY_QUERY: u8 = 0x6B;

/// SysEx reply to a capability query.
pub const CAPABILITY_RESPONSE: u8 = 0x6C;

/// SysEx query for the state of one pin.
pub const PIN_STATE_QUERY: u8 = 0x6D;

/// SysEx reply to a pin-state query.
pub const PIN_STATE_RESPONSE: u8 = 0x6E;

/// SysEx analog write for pins beyond the reach of a plain analog message.
pub const EXTENDED_ANALOG: u8 = 0x6F;

/// SysEx servo configuration (pulse limits).
pub const SERVO_CONFIG: u8 = 0x70;

/// SysEx I2C read or write request.
pub const I2C_REQUEST: u8 = 0x76;

/// SysEx I2C reply from the board.
pub const I2C_REPLY: u8 = 0x77;

/// SysEx I2C configuration.
pub const I2C_CONFIG: u8 = 0x78;

/// SysEx firmware name and version (query and reply).
pub const REPORT_FIRMWARE: u8 = 0x79;

/// SysEx sampling interval for reported analog values.
pub const SAMPLING_INTERVAL: u8 = 0x7A;

/// The largest 7-bit value; also used as a mask for the low seven bits.
pub const SYSEX_REALTIME: u8 = 0x7F;

/// Opens a SysEx message.
pub const START_SYSEX: u8 = 0xF0;

/// Closes a SysEx message.
pub const END_SYSEX: u8 = 0xF7;

/// Pin mode: digital input.
pub const PIN_MODE_INPUT: u8 = 0x00;

/// Pin mode: digital output.
pub const PIN_MODE_OUTPUT: u8 = 0x01;

/// Pin mode: analog input.
pub const PIN_MODE_ANALOG: u8 = 0x02;

/// Pin mode: PWM output.
pub const PIN_MODE_PWM: u8 = 0x03;

/// Pin mode: servo output.
pub const PIN_MODE_SERVO: u8 = 0x04;

/// Pin mode: digital input with pull-up resistor.
pub const PIN_MODE_PULLUP: u8 = 0x0B;

/// Pin mode byte that, in a capability response, ends the list of one pin.
pub const PIN_MODE_IGNORE: u8 = 0x7F;

/// I2C request mode: write.
pub const I2C_WRITE: u8 = 0x00;

/// I2C request mode: read once.
pub const I2C_READ: u8 = 0x01;

/// First command byte of an analog message (the low nibble is the channel).
pub const ANALOG_MESSAGE: u8 = 0xE0;

/// Last command byte of an analog message.
pub const ANALOG_MESSAGE_BOUND: u8 = 0xEF;

/// First command byte of a digital port message (the low nibble is the port).
pub const DIGITAL_MESSAGE: u8 = 0x90;

/// Last command byte of a digital port message.
pub const DIGITAL_MESSAGE_BOUND: u8 = 0x9F;

/// Enables or disables reporting of an analog channel (low nibble).
pub const REPORT_ANALOG: u8 = 0xC0;

/// Enables or disables reporting of a digital port (low nibble).
pub const REPORT_DIGITAL: u8 = 0xD0;

/// Sets the mode of one pin.
pub const SET_PIN_MODE: u8 = 0xF4;

/// Sets the value of one digital pin.
pub const SET_DIGITAL_PIN_VALUE: u8 = 0xF5;

/// Protocol version report (query and reply).
pub const REPORT_VERSION: u8 = 0xF9;

/// Firmata pin number of analog channel 0 on the supported boards.
pub const ANALOG_PIN_OFFSET: u8 = 14;

/// Resolution, in bits, that an analog input is assumed to have.
pub const DEFAULT_ANALOG_RESOLUTION: u8 = 10;

} // verus!
