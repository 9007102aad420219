use vstd::prelude::*;

verus! {

/// The value `x` reduced modulo 256, as a byte.
pub open spec fn wrap_u8(x: int) -> u8 {
    (x % 256) as u8
}

/// The value `x` reduced modulo 65536, as a short.
pub open spec fn wrap_u16(x: int) -> u16 {
    (x % 65536) as u16
}

/// A short assembled from a high and a low byte (big-endian order).
pub open spec fn join_short(high: u8, low: u8) -> u16 {
    (high as int * 256 + low as int) as u16
}

/// The high byte of a short.
pub open spec fn high_byte(value: u16) -> u8 {
    (value as int / 256) as u8
}

/// The low byte of a short.
pub open spec fn low_byte(value: u16) -> u8 {
    (value as int % 256) as u8
}

/// The two's-complement reading of a byte.
pub open spec fn signed8(value: u8) -> int {
    if value < 128 {
        value as int
    } else {
        value as int - 256
    }
}

/// The two's-complement reading of a short.
pub open spec fn signed16(value: u16) -> int {
    if value < 32768 {
        value as int
    } else {
        value as int - 65536
    }
}

pub proof fn lemma_join_split(value: u16)
    ensures
        join_short(high_byte(value), low_byte(value)) == value,
{
}

pub proof fn lemma_split_join(high: u8, low: u8)
    ensures
        high_byte(join_short(high, low)) == high,
        low_byte(join_short(high, low)) == low,
{
}

/// Builds the short `high:low`.
pub fn short_from_bytes(high: u8, low: u8) -> (value: u16)
    ensures
        value == join_short(high, low),
{
    let value = ((high as u16) << 8) | (low as u16);
    assert(((high as u16) << 8) | (low as u16) == (high as u16) * 256 + (low as u16)) by (bit_vector);
    value
}

/// The high byte of `value`.
pub fn short_high(value: u16) -> (byte: u8)
    ensures
        byte == high_byte(value),
{
    assert((value >> 8) == value / 256) by (bit_vector);
    (value >> 8) as u8
}

/// The low byte of `value`.
pub fn short_low(value: u16) -> (byte: u8)
    ensures
        byte == low_byte(value),
{
    assert((value & 0xff) == value % 256) by (bit_vector);
    (value & 0xff) as u8
}

/// Wrapping byte addition.
pub fn add8(x: u8, y: u8) -> (r: u8)
    ensures
        r == wrap_u8(x + y),
{
    x.wrapping_add(y)
}

/// Wrapping byte subtraction.
pub fn sub8(x: u8, y: u8) -> (r: u8)
    ensures
        r == wrap_u8(x - y),
{
    x.wrapping_sub(y)
}

/// Wrapping byte multiplication.
pub fn mul8(x: u8, y: u8) -> (r: u8)
    ensures
        r == wrap_u8(x * y),
{
    x.wrapping_mul(y)
}

/// Wrapping short addition.
pub fn add16(x: u16, y: u16) -> (r: u16)
    ensures
        r == wrap_u16(x + y),
{
    x.wrapping_add(y)
}

/// Wrapping short subtraction.
pub fn sub16(x: u16, y: u16) -> (r: u16)
    ensures
        r == wrap_u16(x - y),
{
    x.wrapping_sub(y)
}

/// Wrapping short multiplication.
pub fn mul16(x: u16, y: u16) -> (r: u16)
    ensures
        r == wrap_u16(x * y),
{
    x.wrapping_mul(y)
}

/// An address moved by a signed offset, wrapping around the 64 KB space.
pub fn offset_address(address: u16, offset: i16) -> (r: u16)
    ensures
        r == wrap_u16(address + offset),
{
    address.wrapping_add_signed(offset)
}

/// `x` advanced by `y`, wrapping around at 65536.
pub fn add16_wide(x: u16, y: usize) -> (r: u16)
    ensures
        r == wrap_u16(x + y),
{
    let low = (y % 65536) as u16;
    proof {
        vstd::arithmetic::div_mod::lemma_add_mod_noop(x as int, y as int, 65536);
        vstd::arithmetic::div_mod::lemma_small_mod(x as nat, 65536);
    }
    x.wrapping_add(low)
}

/// A signed 8-bit offset widened to 16 bits.
pub fn byte_offset(value: u8) -> (offset: i16)
    ensures
        offset as int == signed8(value),
{
    let offset = value as i8 as i16;
    assert(offset == (if value < 128 { value as i16 } else { (value as int - 256) as i16 })) by (bit_vector)
        requires offset == value as i8 as i16;
    offset
}

} // verus!
