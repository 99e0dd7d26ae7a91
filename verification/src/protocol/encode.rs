//! Builders for the byte sequences that the host sends to a board.
use vstd::prelude::*;

use super::constants::{
    ANALOG_MAPPING_QUERY, ANALOG_MESSAGE, CAPABILITY_QUERY, DIGITAL_MESSAGE, END_SYSEX,
    EXTENDED_ANALOG, I2C_CONFIG, I2C_READ, I2C_REQUEST, I2C_WRITE, PIN_STATE_QUERY,
    REPORT_ANALOG, REPORT_DIGITAL, REPORT_FIRMWARE, SAMPLING_INTERVAL, SERVO_CONFIG,
    SET_DIGITAL_PIN_VALUE, SET_PIN_MODE, START_SYSEX,
};
use super::sysex::{append_14bit, append_7bit_data, encoding_14bit, encoding_7bit_data};
use super::types::{mode_byte, PinMode};

verus! {

/// The frames of `frames`, one after another.
pub open spec fn joined(frames: Seq<Seq<u8>>) -> Seq<u8>
    decreases frames.len(),
{
    if frames.len() == 0 {
        seq![]
    } else {
        joined(frames.drop_last()) + frames.last()
    }
}

/// SysEx query for the firmware name and version.
pub open spec fn query_firmware_frame() -> Seq<u8> {
    seq![START_SYSEX, REPORT_FIRMWARE, END_SYSEX]
}

/// SysEx query for the capabilities of every pin.
pub open spec fn query_capabilities_frame() -> Seq<u8> {
    seq![START_SYSEX, CAPABILITY_QUERY, END_SYSEX]
}

/// SysEx query for the analog channel of every pin.
pub open spec fn query_analog_mapping_frame() -> Seq<u8> {
    seq![START_SYSEX, ANALOG_MAPPING_QUERY, END_SYSEX]
}

/// SysEx query for the state of `pin`.
pub open spec fn pin_state_query_frame(pin: u8) -> Seq<u8> {
    seq![START_SYSEX, PIN_STATE_QUERY, pin, END_SYSEX]
}

/// SysEx setting of the sampling interval to `ms` milliseconds.
pub open spec fn sampling_interval_frame(ms: u16) -> Seq<u8> {
    seq![START_SYSEX, SAMPLING_INTERVAL] + encoding_14bit(ms) + seq![END_SYSEX]
}

/// SysEx configuration of the I2C read delay.
pub open spec fn i2c_config_frame(delay_us: u16) -> Seq<u8> {
    seq![START_SYSEX, I2C_CONFIG] + encoding_14bit(delay_us) + seq![END_SYSEX]
}

/// SysEx request to read `size` bytes from the I2C device at `address`.
pub open spec fn i2c_read_frame(address: u8, size: u16) -> Seq<u8> {
    seq![START_SYSEX, I2C_REQUEST, address, 0x08u8] + encoding_14bit(size) + seq![END_SYSEX]
}

/// SysEx request to write `data` to the I2C device at `address`.
pub open spec fn i2c_write_frame(address: u8, data: Seq<u8>) -> Seq<u8> {
    seq![START_SYSEX, I2C_REQUEST, address, 0x00u8] + encoding_7bit_data(data) + seq![END_SYSEX]
}

/// The byte that stands for a flag on the wire.
pub open spec fn flag_byte(enabled: bool) -> u8 {
    if enabled {
        1
    } else {
        0
    }
}

/// Enables or disables reporting of digital port `port`.
pub open spec fn report_digital_frame(port: u8, enabled: bool) -> Seq<u8> {
    seq![REPORT_DIGITAL | port, flag_byte(enabled)]
}

/// Enables or disables reporting of analog channel `analog_pin`.
pub open spec fn report_analog_frame(analog_pin: u8, enabled: bool) -> Seq<u8> {
    seq![REPORT_ANALOG | analog_pin, flag_byte(enabled)]
}

/// Sets the mode of `pin`.
pub open spec fn set_pin_mode_frame(pin: u8, mode: PinMode) -> Seq<u8> {
    seq![SET_PIN_MODE, pin, mode_byte(mode)]
}

/// Writes `level` to analog channel `pin`.
pub open spec fn analog_write_frame(pin: u8, level: u16) -> Seq<u8> {
    seq![ANALOG_MESSAGE | pin] + encoding_14bit(level)
}

/// Writes the bit mask `mask` to digital port `port`.
pub open spec fn digital_port_write_frame(port: u8, mask: u16) -> Seq<u8> {
    seq![DIGITAL_MESSAGE | port] + encoding_14bit(mask)
}

/// Sets one digital pin to `value`.
pub open spec fn set_digital_pin_value_frame(pin: u8, value: u8) -> Seq<u8> {
    seq![SET_DIGITAL_PIN_VALUE, pin, value]
}

/// SysEx analog write of `level` to any pin.
pub open spec fn extended_analog_write_frame(pin: u8, level: u16) -> Seq<u8> {
    seq![START_SYSEX, EXTENDED_ANALOG, pin] + encoding_14bit(level) + seq![END_SYSEX]
}

/// SysEx servo configuration of `pin` with pulse limits in microseconds.
pub open spec fn servo_config_frame(pin: u8, min_pulse: u16, max_pulse: u16) -> Seq<u8> {
    seq![START_SYSEX, SERVO_CONFIG, pin] + encoding_14bit(min_pulse) + encoding_14bit(max_pulse)
        + seq![END_SYSEX]
}

pub fn query_firmware() -> (r: Vec<u8>)
    ensures
        r@ == query_firmware_frame(),
{
    let r = vec![START_SYSEX, REPORT_FIRMWARE, END_SYSEX];
    assert(r@ =~= query_firmware_frame());
    r
}

pub fn query_capabilities() -> (r: Vec<u8>)
    ensures
        r@ == query_capabilities_frame(),
{
    let r = vec![START_SYSEX, CAPABILITY_QUERY, END_SYSEX];
    assert(r@ =~= query_capabilities_frame());
    r
}

pub fn query_analog_mapping() -> (r: Vec<u8>)
    ensures
        r@ == query_analog_mapping_frame(),
{
    let r = vec![START_SYSEX, ANALOG_MAPPING_QUERY, END_SYSEX];
    assert(r@ =~= query_analog_mapping_frame());
    r
}

pub fn pin_state_query(pin: u8) -> (r: Vec<u8>)
    ensures
        r@ == pin_state_query_frame(pin),
{
    let r = vec![START_SYSEX, PIN_STATE_QUERY, pin, END_SYSEX];
    assert(r@ =~= pin_state_query_frame(pin));
    r
}

pub fn sampling_interval(ms: u16) -> (r: Vec<u8>)
    ensures
        r@ == sampling_interval_frame(ms),
{
    let mut buf = vec![START_SYSEX, SAMPLING_INTERVAL];
    append_14bit(&mut buf, ms);
    buf.push(END_SYSEX);
    assert(buf@ =~= sampling_interval_frame(ms));
    buf
}

pub fn i2c_config(delay_us: u16) -> (r: Vec<u8>)
    ensures
        r@ == i2c_config_frame(delay_us),
{
    let mut buf = vec![START_SYSEX, I2C_CONFIG];
    append_14bit(&mut buf, delay_us);
    buf.push(END_SYSEX);
    assert(buf@ =~= i2c_config_frame(delay_us));
    buf
}

pub fn i2c_read(address: u8, size: u16) -> (r: Vec<u8>)
    ensures
        r@ == i2c_read_frame(address, size),
{
    let mut buf = vec![START_SYSEX, I2C_REQUEST, address, I2C_READ << 3u8];
    assert(I2C_READ << 3u8 == 0x08u8) by (bit_vector);
    append_14bit(&mut buf, size);
    buf.push(END_SYSEX);
    assert(buf@ =~= i2c_read_frame(address, size));
    buf
}

pub fn i2c_write(address: u8, data: &[u8]) -> (r: Vec<u8>)
    ensures
        r@ == i2c_write_frame(address, data@),
{
    let mut buf = vec![START_SYSEX, I2C_REQUEST, address, I2C_WRITE << 3u8];
    assert(I2C_WRITE << 3u8 == 0x00u8) by (bit_vector);
    append_7bit_data(&mut buf, data);
    buf.push(END_SYSEX);
    assert(buf@ =~= i2c_write_frame(address, data@));
    buf
}

pub fn report_digital(port: u8, enabled: bool) -> (r: Vec<u8>)
    ensures
        r@ == report_digital_frame(port, enabled),
{
    let flag: u8 = if enabled {
        1
    } else {
        0
    };
    let r = vec![REPORT_DIGITAL | port, flag];
    assert(r@ =~= report_digital_frame(port, enabled));
    r
}

pub fn report_analog(analog_pin: u8, enabled: bool) -> (r: Vec<u8>)
    ensures
        r@ == report_analog_frame(analog_pin, enabled),
{
    let flag: u8 = if enabled {
        1
    } else {
        0
    };
    let r = vec![REPORT_ANALOG | analog_pin, flag];
    assert(r@ =~= report_analog_frame(analog_pin, enabled));
    r
}

pub fn set_pin_mode(pin: u8, mode: PinMode) -> (r: Vec<u8>)
    ensures
        r@ == set_pin_mode_frame(pin, mode),
{
    let r = vec![SET_PIN_MODE, pin, mode.as_u8()];
    assert(r@ =~= set_pin_mode_frame(pin, mode));
    r
}

pub fn analog_write(pin: u8, level: u16) -> (r: Vec<u8>)
    ensures
        r@ == analog_write_frame(pin, level),
{
    let mut buf = vec![ANALOG_MESSAGE | pin];
    append_14bit(&mut buf, level);
    assert(buf@ =~= analog_write_frame(pin, level));
    buf
}

pub fn digital_port_write(port: u8, mask: u16) -> (r: Vec<u8>)
    ensures
        r@ == digital_port_write_frame(port, mask),
{
    let mut buf = vec![DIGITAL_MESSAGE | port];
    append_14bit(&mut buf, mask);
    assert(buf@ =~= digital_port_write_frame(port, mask));
    buf
}

pub fn set_digital_pin_value(pin: u8, value: u8) -> (r: Vec<u8>)
    ensures
        r@ == set_digital_pin_value_frame(pin, value),
{
    let r = vec![SET_DIGITAL_PIN_VALUE, pin, value];
    assert(r@ =~= set_digital_pin_value_frame(pin, value));
    r
}

pub fn extended_analog_write(pin: u8, level: u16) -> (r: Vec<u8>)
    ensures
        r@ == extended_analog_write_frame(pin, level),
{
    let mut buf = vec![START_SYSEX, EXTENDED_ANALOG, pin];
    append_14bit(&mut buf, level);
    buf.push(END_SYSEX);
    assert(buf@ =~= extended_analog_write_frame(pin, level));
    buf
}

pub fn servo_config(pin: u8, min_pulse: u16, max_pulse: u16) -> (r: Vec<u8>)
    ensures
        r@ == servo_config_frame(pin, min_pulse, max_pulse),
{
    let mut buf = vec![START_SYSEX, SERVO_CONFIG, pin];
    append_14bit(&mut buf, min_pulse);
    append_14bit(&mut buf, max_pulse);
    buf.push(END_SYSEX);
    assert(buf@ =~= servo_config_frame(pin, min_pulse, max_pulse));
    buf
}

/// An I2C write frame carries the whole of its data: after the four
/// header bytes (SysEx start, I2C request, the address, and the write
/// command 0) come two bytes per data byte, its low seven bits and then its
/// high bit, so that each pair gives the data byte back, and then the SysEx
/// end.
pub proof fn lemma_i2c_write_frame_bytes(address: u8, data: Seq<u8>)
    ensures
        i2c_write_frame(address, data).len() == 5 + 2 * data.len(),
        i2c_write_frame(address, data)[0] == START_SYSEX,
        i2c_write_frame(address, data)[1] == I2C_REQUEST,
        i2c_write_frame(address, data)[2] == address,
        i2c_write_frame(address, data)[3] == 0,
        i2c_write_frame(address, data).last() == END_SYSEX,
        forall|i: int|
            0 <= i < data.len() ==> {
                let lo = #[trigger] i2c_write_frame(address, data)[4 + 2 * i];
                let hi = i2c_write_frame(address, data)[5 + 2 * i];
                &&& lo < 128
                &&& hi < 2
                &&& lo + 128 * hi == data[i]
            },
{
    let f = i2c_write_frame(address, data);
    let body = encoding_7bit_data(data);
    assert forall|i: int| 0 <= i < data.len() implies {
        let lo = #[trigger] f[4 + 2 * i];
        let hi = f[5 + 2 * i];
        &&& lo < 128
        &&& hi < 2
        &&& lo + 128 * hi == data[i]
    } by {
        assert(f[4 + 2 * i] == body[2 * i]);
        assert(f[5 + 2 * i] == body[2 * i + 1]);
        assert((2 * i) % 2 == 0 && (2 * i) / 2 == i);
        assert((2 * i + 1) % 2 == 1 && (2 * i + 1) / 2 == i);
    }
}

/// The one-byte commands carry their channel or port in the low four bits:
/// for a channel or port `n` below 16 and a value below 2^14, an analog
/// write is 0xE0 + n, a digital port write 0x90 + n, each followed by the
/// low seven bits of the value and the next seven; an analog report is
/// 0xC0 + n and a digital report 0xD0 + n, each followed by 1 to enable or
/// 0 to disable.
pub proof fn lemma_command_frames(n: u8, value: u16, enabled: bool)
    requires
        n < 16,
        value < 0x4000,
    ensures
        analog_write_frame(n, value) == seq![(0xE0 + n) as u8, (value % 128) as u8, (value / 128) as u8],
        digital_port_write_frame(n, value) == seq![
            (0x90 + n) as u8,
            (value % 128) as u8,
            (value / 128) as u8,
        ],
        report_analog_frame(n, enabled) == seq![(0xC0 + n) as u8, if enabled { 1u8 } else { 0u8 }],
        report_digital_frame(n, enabled) == seq![(0xD0 + n) as u8, if enabled { 1u8 } else { 0u8 }],
{
    assert(n < 16 ==> 0xE0u8 | n == 0xE0 + n && 0x90u8 | n == 0x90 + n && 0xC0u8 | n == 0xC0 + n
        && 0xD0u8 | n == 0xD0 + n) by (bit_vector);
    assert(value < 0x4000 ==> (value / 128) % 128 == value / 128);
    assert(analog_write_frame(n, value) =~= seq![(0xE0 + n) as u8, (value % 128) as u8, (value / 128) as u8]);
    assert(digital_port_write_frame(n, value) =~= seq![
        (0x90 + n) as u8,
        (value % 128) as u8,
        (value / 128) as u8,
    ]);
}

} // verus!
