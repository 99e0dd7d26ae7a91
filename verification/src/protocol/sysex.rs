//! Firmata's 7-bit framing of wider values: every data byte on the wire
//! keeps its high bit clear, so a 14-bit value travels as two 7-bit halves,
//! low half first.
use vstd::prelude::*;

use super::constants::SYSEX_REALTIME;

verus! {

/// The two bytes that carry `value`: its low seven bits, then the next seven.
/// Bits above the fourteenth are not carried.
pub open spec fn encoding_14bit(value: u16) -> Seq<u8> {
    seq![(value % 128) as u8, ((value / 128) % 128) as u8]
}

/// The value that the byte pair `lo`, `hi` stands for: `hi` shifted over the
/// seven bits of `lo`, the two combined by a bitwise or.
pub open spec fn value_14bit(lo: u8, hi: u8) -> u16 {
    (lo as u16) | (((hi as u16) << 7u16) as u16)
}

/// The bytes that carry `data` in 7-bit form: each byte becomes its low
/// seven bits followed by its high bit.
pub open spec fn encoding_7bit_data(data: Seq<u8>) -> Seq<u8> {
    Seq::new(
        (2 * data.len()) as nat,
        |i: int|
            if i % 2 == 0 {
                (data[i / 2] % 128) as u8
            } else {
                (data[i / 2] / 128) as u8
            },
    )
}

/// Combines two 7-bit halves into one value.
pub fn decode_14bit(lo: u8, hi: u8) -> (r: u16)
    ensures
        r == value_14bit(lo, hi),
        lo < 128 ==> r == lo + 128 * hi,
{
    let r = (lo as u16) | ((hi as u16) << 7u16);
    assert(lo < 128 ==> (lo as u16) | (((hi as u16) << 7u16) as u16) == lo + 128 * hi)
        by (bit_vector);
    r
}

/// Splits the low fourteen bits of `value` into two 7-bit halves.
pub fn encode_14bit(value: u16) -> (r: [u8; 2])
    ensures
        r@ == encoding_14bit(value),
{
    let lo = (value as u8) & SYSEX_REALTIME;
    let hi = ((value >> 7u16) as u8) & SYSEX_REALTIME;
    assert(((value as u8) & 0x7Fu8) == value % 128) by (bit_vector);
    assert((((value >> 7u16) as u8) & 0x7Fu8) == (value / 128) % 128) by (bit_vector);
    let r = [lo, hi];
    assert(r@ =~= encoding_14bit(value));
    r
}

/// Appends the 7-bit halves of `value` to `buf`.
pub fn append_14bit(buf: &mut Vec<u8>, value: u16)
    ensures
        final(buf)@ == old(buf)@ + encoding_14bit(value),
{
    let pair = encode_14bit(value);
    buf.push(pair[0]);
    buf.push(pair[1]);
    assert(buf@ =~= old(buf)@ + encoding_14bit(value));
}

/// Appends every byte of `data` to `buf` in 7-bit form.
pub fn append_7bit_data(buf: &mut Vec<u8>, data: &[u8])
    ensures
        final(buf)@ == old(buf)@ + encoding_7bit_data(data@),
{
    let n = data.len();
    let mut i: usize = 0;
    while i < n
        invariant
            n == data@.len(),
            i <= n,
            buf@ == old(buf)@ + encoding_7bit_data(data@.take(i as int)),
        decreases n - i,
    {
        let byte = data[i];
        let ghost before = buf@;
        buf.push(byte & SYSEX_REALTIME);
        buf.push((byte >> 7u8) & SYSEX_REALTIME);
        assert((byte & 0x7Fu8) == byte % 128) by (bit_vector);
        assert(((byte >> 7u8) & 0x7Fu8) == byte / 128) by (bit_vector);
        proof {
            let prev = encoding_7bit_data(data@.take(i as int));
            let next = encoding_7bit_data(data@.take(i + 1));
            assert(next =~= prev + seq![byte % 128, byte / 128]) by {
                assert forall|k: int| 0 <= k < next.len() implies next[k] == (prev + seq![
                    byte % 128,
                    byte / 128,
                ])[k] by {
                    if k < prev.len() {
                        assert(data@.take(i + 1)[k / 2] == data@.take(i as int)[k / 2]);
                    } else {
                        assert(k / 2 == i as int);
                    }
                }
            }
        }
        i = i + 1;
        assert(buf@ =~= old(buf)@ + encoding_7bit_data(data@.take(i as int)));
    }
    assert(data@.take(n as int) =~= data@);
}

/// A value below 2^14 survives encoding and decoding unchanged.
pub proof fn lemma_14bit_round_trip(value: u16)
    requires
        value < 0x4000,
    ensures
        value_14bit(encoding_14bit(value)[0], encoding_14bit(value)[1]) == value,
{
    let lo = (value % 128) as u8;
    let hi = ((value / 128) % 128) as u8;
    assert(value < 0x4000 ==> (lo == (value % 128) as u8 && hi == ((value / 128) % 128) as u8)
        ==> (lo as u16) | (((hi as u16) << 7u16) as u16) == value) by (bit_vector);
}

/// A pair of 7-bit bytes survives decoding and re-encoding unchanged.
pub proof fn lemma_14bit_decode_encode(lo: u8, hi: u8)
    requires
        lo < 128,
        hi < 128,
    ensures
        encoding_14bit(value_14bit(lo, hi)) == seq![lo, hi],
{
    let v = value_14bit(lo, hi);
    assert(lo < 128 && hi < 128 ==> ((((lo as u16) | (((hi as u16) << 7u16) as u16)) % 128)
        as u8) == lo) by (bit_vector);
    assert(lo < 128 && hi < 128 ==> (((((lo as u16) | (((hi as u16) << 7u16) as u16)) / 128)
        % 128) as u8) == hi) by (bit_vector);
    assert(encoding_14bit(v) =~= seq![lo, hi]);
}

/// A value below 2^14 travels as two bytes with their high bits clear, the
/// low seven bits first: the first byte plus 128 times the second is the
/// value. A pair whose first byte has its high bit clear stands for that
/// first byte plus 128 times the second.
pub proof fn lemma_14bit_halves(value: u16, lo: u8, hi: u8)
    ensures
        value < 0x4000 ==> encoding_14bit(value)[0] < 128 && encoding_14bit(value)[1] < 128
            && encoding_14bit(value)[0] + 128 * encoding_14bit(value)[1] == value,
        lo < 128 ==> value_14bit(lo, hi) == lo + 128 * hi,
{
    assert(lo < 128 ==> (lo as u16) | (((hi as u16) << 7u16) as u16) == lo + 128 * hi)
        by (bit_vector);
}

} // verus!
