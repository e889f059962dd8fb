//! Encoders for the fixed-width S7 scalar types.
//!
//! Every encoder validates first and only then writes, so a failed call
//! leaves the buffer exactly as it was: no partial writes.

use vstd::prelude::*;
use crate::date::{day_index, day_offset_from_date, month_len, valid_date, Date};
use crate::error::CodecError;
use vstd::utf8::encode_utf8;
use crate::timestr::{match_value, parse_time_string, time_match};
use crate::getters::bit_of;
use crate::wire::{
    be_bytes, be_val, i16_to_wire, i32_to_wire, i64_to_wire, i8_to_wire, lemma_be_round_trip,
    unsigned16, unsigned32, unsigned64, unsigned8, write_be,
};
use vstd::arithmetic::power2::pow2;

verus! {

/// Sets or clears bit `bool_index` (0 = LSB) of the byte at `byte_index`,
/// leaving every other bit of the buffer untouched.
pub fn set_bool(bytearray: &mut [u8], byte_index: usize, bool_index: usize, value: bool) -> (r:
    Result<(), CodecError>)
    ensures
        bool_index > 7 ==> r == Err::<(), CodecError>(CodecError::Range) && final(bytearray)@
            == old(bytearray)@,
        bool_index <= 7 && byte_index >= old(bytearray)@.len() ==> r == Err::<(), CodecError>(
            CodecError::Bounds,
        ) && final(bytearray)@ == old(bytearray)@,
        bool_index <= 7 && byte_index < old(bytearray)@.len() ==> r == Ok::<(), CodecError>(())
            && final(bytearray)@.len() == old(bytearray)@.len()
            && (forall|k: int|
                0 <= k < old(bytearray)@.len() && k != byte_index
                    ==> final(bytearray)@[k] == old(bytearray)@[k])
            && (forall|k: u8|
                k <= 7 ==> bit_of(final(bytearray)@[byte_index as int], k) == (
                if k == bool_index {
                    value
                } else {
                    bit_of(old(bytearray)@[byte_index as int], k)
                })),
{
    if bool_index > 7 {
        return Err(CodecError::Range);
    }
    if byte_index >= bytearray.len() {
        return Err(CodecError::Bounds);
    }
    let i = bool_index as u8;
    let mask: u8 = 1u8 << i;
    let b = bytearray[byte_index];
    let new_byte: u8 = if value {
        b | mask
    } else {
        b & !mask
    };
    bytearray[byte_index] = new_byte;
    proof {
        assert forall|k: u8|
            k <= 7 implies bit_of(new_byte, k) == (if k == bool_index {
            value
        } else {
            bit_of(b, k)
        }) by {
            if value {
                assert(i <= 7 && k <= 7 ==> (((b | (1u8 << i)) >> k) & 1 == 1) == (if k == i {
                    true
                } else {
                    (b >> k) & 1 == 1
                })) by (bit_vector);
            } else {
                assert(i <= 7 && k <= 7 ==> (((b & !(1u8 << i)) >> k) & 1 == 1) == (if k == i {
                    false
                } else {
                    (b >> k) & 1 == 1
                })) by (bit_vector);
            }
        }
    }
    Ok(())
}

/// Writes one unsigned byte.
pub fn set_byte(bytearray: &mut [u8], byte_index: usize, value: u8) -> (r: Result<
    (),
    CodecError,
>)
    ensures
        byte_index >= old(bytearray)@.len() ==> r == Err::<(), CodecError>(CodecError::Bounds)
            && final(bytearray)@ == old(bytearray)@,
        byte_index < old(bytearray)@.len() ==> r == Ok::<(), CodecError>(()) && final(bytearray)@
            == old(bytearray)@.update(byte_index as int, value),
{
    if byte_index >= bytearray.len() {
        return Err(CodecError::Bounds);
    }
    bytearray[byte_index] = value;
    Ok(())
}

/// Writes an unsigned byte (`USInt`); same wire form as `set_byte`.
pub fn set_usint(bytearray: &mut [u8], byte_index: usize, value: u8) -> (r: Result<
    (),
    CodecError,
>)
    ensures
        byte_index >= old(bytearray)@.len() ==> r == Err::<(), CodecError>(CodecError::Bounds)
            && final(bytearray)@ == old(bytearray)@,
        byte_index < old(bytearray)@.len() ==> r == Ok::<(), CodecError>(()) && final(bytearray)@
            == old(bytearray)@.update(byte_index as int, value),
{
    set_byte(bytearray, byte_index, value)
}

/// Writes a signed byte (`SInt`) as two's complement.
pub fn set_sint(bytearray: &mut [u8], byte_index: usize, value: i8) -> (r: Result<
    (),
    CodecError,
>)
    ensures
        byte_index >= old(bytearray)@.len() ==> r == Err::<(), CodecError>(CodecError::Bounds)
            && final(bytearray)@ == old(bytearray)@,
        byte_index < old(bytearray)@.len() ==> r == Ok::<(), CodecError>(()) && final(bytearray)@
            == old(bytearray)@.update(byte_index as int, (unsigned8(value as int)) as u8),
{
    set_byte(bytearray, byte_index, i8_to_wire(value))
}

/// What every fixed-width big-endian encoder guarantees: on success the
/// `width`-byte span at `byte_index` holds the encoding of `wire_value`
/// and nothing else moved; on failure the buffer is untouched.
pub open spec fn be_write_ok(
    old_buf: Seq<u8>,
    new_buf: Seq<u8>,
    byte_index: usize,
    width: nat,
    wire_value: int,
) -> bool {
    &&& new_buf.len() == old_buf.len()
    &&& new_buf.subrange(byte_index as int, byte_index + width) == be_bytes(wire_value, width)
    &&& forall|k: int|
        0 <= k < old_buf.len() && !(byte_index <= k < byte_index + width) ==> new_buf[k]
            == old_buf[k]
}

/// Round trip: a span that a fixed-width encoder has just written reads
/// back, big-endian, as the wire value that went in, for every value
/// that fits the width. Together with the two's-complement laws of the
/// signed conversions this gives `decode(encode(x)) == x` for each
/// fixed-width integer type.
pub proof fn lemma_set_then_get(
    old_buf: Seq<u8>,
    new_buf: Seq<u8>,
    byte_index: usize,
    width: nat,
    wire_value: int,
)
    requires
        be_write_ok(old_buf, new_buf, byte_index, width, wire_value),
        0 <= wire_value < pow2(8 * width),
    ensures
        be_val(new_buf.subrange(byte_index as int, byte_index + width)) == wire_value,
{
    lemma_be_round_trip(wire_value, width);
}

/// Writes an unsigned 16-bit word, big-endian.
pub fn set_word(bytearray: &mut [u8], byte_index: usize, value: u16) -> (r: Result<
    (),
    CodecError,
>)
    ensures
        byte_index + 2 > old(bytearray)@.len() ==> r == Err::<(), CodecError>(CodecError::Bounds)
            && final(bytearray)@ == old(bytearray)@,
        byte_index + 2 <= old(bytearray)@.len() ==> r == Ok::<(), CodecError>(()) && be_write_ok(
            old(bytearray)@,
            final(bytearray)@,
            byte_index,
            2,
            value as int,
        ),
{
    if !(byte_index <= bytearray.len() && bytearray.len() - byte_index >= 2) {
        return Err(CodecError::Bounds);
    }
    proof {
        vstd::arithmetic::power2::lemma2_to64();
    }
    write_be(bytearray, byte_index, 2, value as u64);
    Ok(())
}

/// Writes an unsigned 16-bit integer (`UInt`); same wire form as
/// `set_word`.
pub fn set_uint(bytearray: &mut [u8], byte_index: usize, value: u16) -> (r: Result<
    (),
    CodecError,
>)
    ensures
        byte_index + 2 > old(bytearray)@.len() ==> r == Err::<(), CodecError>(CodecError::Bounds)
            && final(bytearray)@ == old(bytearray)@,
        byte_index + 2 <= old(bytearray)@.len() ==> r == Ok::<(), CodecError>(()) && be_write_ok(
            old(bytearray)@,
            final(bytearray)@,
            byte_index,
            2,
            value as int,
        ),
{
    set_word(bytearray, byte_index, value)
}

/// Writes a signed 16-bit integer, big-endian two's complement.
pub fn set_int(bytearray: &mut [u8], byte_index: usize, value: i16) -> (r: Result<
    (),
    CodecError,
>)
    ensures
        byte_index + 2 > old(bytearray)@.len() ==> r == Err::<(), CodecError>(CodecError::Bounds)
            && final(bytearray)@ == old(bytearray)@,
        byte_index + 2 <= old(bytearray)@.len() ==> r == Ok::<(), CodecError>(()) && be_write_ok(
            old(bytearray)@,
            final(bytearray)@,
            byte_index,
            2,
            unsigned16(value as int),
        ),
{
    set_word(bytearray, byte_index, i16_to_wire(value))
}

/// Writes an unsigned 32-bit double word, big-endian.
pub fn set_dword(bytearray: &mut [u8], byte_index: usize, value: u32) -> (r: Result<
    (),
    CodecError,
>)
    ensures
        byte_index + 4 > old(bytearray)@.len() ==> r == Err::<(), CodecError>(CodecError::Bounds)
            && final(bytearray)@ == old(bytearray)@,
        byte_index + 4 <= old(bytearray)@.len() ==> r == Ok::<(), CodecError>(()) && be_write_ok(
            old(bytearray)@,
            final(bytearray)@,
            byte_index,
            4,
            value as int,
        ),
{
    if !(byte_index <= bytearray.len() && bytearray.len() - byte_index >= 4) {
        return Err(CodecError::Bounds);
    }
    proof {
        vstd::arithmetic::power2::lemma2_to64();
        vstd::arithmetic::power2::lemma2_to64_rest();
    }
    write_be(bytearray, byte_index, 4, value as u64);
    Ok(())
}

/// Writes an unsigned 32-bit integer (`UDInt`); same wire form as
/// `set_dword`.
pub fn set_udint(bytearray: &mut [u8], byte_index: usize, value: u32) -> (r: Result<
    (),
    CodecError,
>)
    ensures
        byte_index + 4 > old(bytearray)@.len() ==> r == Err::<(), CodecError>(CodecError::Bounds)
            && final(bytearray)@ == old(bytearray)@,
        byte_index + 4 <= old(bytearray)@.len() ==> r == Ok::<(), CodecError>(()) && be_write_ok(
            old(bytearray)@,
            final(bytearray)@,
            byte_index,
            4,
            value as int,
        ),
{
    set_dword(bytearray, byte_index, value)
}

/// Writes a signed 32-bit integer, big-endian two's complement.
pub fn set_dint(bytearray: &mut [u8], byte_index: usize, value: i32) -> (r: Result<
    (),
    CodecError,
>)
    ensures
        byte_index + 4 > old(bytearray)@.len() ==> r == Err::<(), CodecError>(CodecError::Bounds)
            && final(bytearray)@ == old(bytearray)@,
        byte_index + 4 <= old(bytearray)@.len() ==> r == Ok::<(), CodecError>(()) && be_write_ok(
            old(bytearray)@,
            final(bytearray)@,
            byte_index,
            4,
            unsigned32(value as int),
        ),
{
    set_dword(bytearray, byte_index, i32_to_wire(value))
}

/// Writes an unsigned 64-bit long word, big-endian.
pub fn set_lword(bytearray: &mut [u8], byte_index: usize, value: u64) -> (r: Result<
    (),
    CodecError,
>)
    ensures
        byte_index + 8 > old(bytearray)@.len() ==> r == Err::<(), CodecError>(CodecError::Bounds)
            && final(bytearray)@ == old(bytearray)@,
        byte_index + 8 <= old(bytearray)@.len() ==> r == Ok::<(), CodecError>(()) && be_write_ok(
            old(bytearray)@,
            final(bytearray)@,
            byte_index,
            8,
            value as int,
        ),
{
    if !(byte_index <= bytearray.len() && bytearray.len() - byte_index >= 8) {
        return Err(CodecError::Bounds);
    }
    proof {
        vstd::arithmetic::power2::lemma2_to64();
        vstd::arithmetic::power2::lemma2_to64_rest();
    }
    write_be(bytearray, byte_index, 8, value);
    Ok(())
}

/// Writes an unsigned 64-bit integer (`ULInt`); same wire form as
/// `set_lword`.
pub fn set_ulint(bytearray: &mut [u8], byte_index: usize, value: u64) -> (r: Result<
    (),
    CodecError,
>)
    ensures
        byte_index + 8 > old(bytearray)@.len() ==> r == Err::<(), CodecError>(CodecError::Bounds)
            && final(bytearray)@ == old(bytearray)@,
        byte_index + 8 <= old(bytearray)@.len() ==> r == Ok::<(), CodecError>(()) && be_write_ok(
            old(bytearray)@,
            final(bytearray)@,
            byte_index,
            8,
            value as int,
        ),
{
    set_lword(bytearray, byte_index, value)
}

/// Writes a signed 64-bit integer, big-endian two's complement.
pub fn set_lint(bytearray: &mut [u8], byte_index: usize, value: i64) -> (r: Result<
    (),
    CodecError,
>)
    ensures
        byte_index + 8 > old(bytearray)@.len() ==> r == Err::<(), CodecError>(CodecError::Bounds)
            && final(bytearray)@ == old(bytearray)@,
        byte_index + 8 <= old(bytearray)@.len() ==> r == Ok::<(), CodecError>(()) && be_write_ok(
            old(bytearray)@,
            final(bytearray)@,
            byte_index,
            8,
            unsigned64(value as int),
        ),
{
    set_lword(bytearray, byte_index, i64_to_wire(value))
}

/// Writes one character, which must be a single ASCII byte.
pub fn set_char(bytearray: &mut [u8], byte_index: usize, value: char) -> (r: Result<
    (),
    CodecError,
>)
    ensures
        (value as u32) >= 0x80 ==> r == Err::<(), CodecError>(CodecError::Format)
            && final(bytearray)@ == old(bytearray)@,
        (value as u32) < 0x80 && byte_index >= old(bytearray)@.len() ==> r == Err::<(), CodecError>(
            CodecError::Bounds,
        ) && final(bytearray)@ == old(bytearray)@,
        (value as u32) < 0x80 && byte_index < old(bytearray)@.len() ==> r == Ok::<(), CodecError>(())
            && final(bytearray)@ == old(bytearray)@.update(byte_index as int, value as u8),
{
    let code = value as u32;
    if code >= 0x80 {
        return Err(CodecError::Format);
    }
    set_byte(bytearray, byte_index, code as u8)
}

/// Writes a `DATE` as its day count since 1990-01-01, two bytes
/// big-endian. Dates before 1990-01-01 or after 2168-12-31, and invalid
/// calendar dates, are rejected without touching the buffer.
pub fn set_date(bytearray: &mut [u8], byte_index: usize, value: Date) -> (r: Result<
    (),
    CodecError,
>)
    ensures
        !(valid_date(value) && 1990 <= value.year <= 2168) ==> r == Err::<(), CodecError>(
            CodecError::Range,
        ) && final(bytearray)@ == old(bytearray)@,
        valid_date(value) && 1990 <= value.year <= 2168 && byte_index + 2 > old(bytearray)@.len()
            ==> r == Err::<(), CodecError>(CodecError::Bounds) && final(bytearray)@ == old(bytearray)@,
        valid_date(value) && 1990 <= value.year <= 2168 && byte_index + 2 <= old(bytearray)@.len()
            ==> r == Ok::<(), CodecError>(()) && be_write_ok(
            old(bytearray)@,
            final(bytearray)@,
            byte_index,
            2,
            day_index(value),
        ),
{
    let ok = value.year >= 1990 && value.year <= 2168 && value.month >= 1 && value.month <= 12
        && value.day >= 1 && value.day <= month_len(value.year, value.month);
    if !ok {
        return Err(CodecError::Range);
    }
    let offset = day_offset_from_date(value);
    set_word(bytearray, byte_index, offset)
}

/// Parses a textual `TIME` duration (`[-]D:H:M:S<sep>ms`) and writes its
/// total signed millisecond count as four big-endian bytes.
pub fn set_time(bytearray: &mut [u8], byte_index: usize, time_string: &str) -> (r: Result<
    (),
    CodecError,
>)
    ensures
        match time_match(time_string@) {
            None => r == Err::<(), CodecError>(CodecError::Parse) && final(bytearray)@ == old(bytearray)@,
            Some(m) => ({
                let t = match_value(time_string@, m);
                if t < -0x8000_0000 || t > 0x7fff_ffff {
                    r == Err::<(), CodecError>(CodecError::Range) && final(bytearray)@ == old(bytearray)@
                } else if byte_index + 4 > old(bytearray)@.len() {
                    r == Err::<(), CodecError>(CodecError::Bounds) && final(bytearray)@ == old(bytearray)@
                } else {
                    r == Ok::<(), CodecError>(()) && be_write_ok(
                        old(bytearray)@,
                        final(bytearray)@,
                        byte_index,
                        4,
                        unsigned32(t),
                    )
                }
            }),
        },
{
    let t = match parse_time_string(time_string) {
        Ok(t) => t,
        Err(e) => {
            return Err(e);
        },
    };
    if t < -0x8000_0000i64 || t > 0x7fff_ffffi64 {
        return Err(CodecError::Range);
    }
    set_dint(bytearray, byte_index, t as i32)
}

/// Writes the bytes of `src` at `at`, touching nothing else.
fn write_bytes(bytearray: &mut [u8], at: usize, src: &[u8]) -> (r: ())
    requires
        at + src@.len() <= old(bytearray)@.len(),
    ensures
        final(bytearray)@.len() == old(bytearray)@.len(),
        forall|k: int|
            0 <= k < old(bytearray)@.len() && !(at <= k < at + src@.len()) ==> final(bytearray)@[k]
                == old(bytearray)@[k],
        final(bytearray)@.subrange(at as int, at + src@.len()) == src@,
{
    let blen = bytearray.len();
    let n = src.len();
    let mut j: usize = 0;
    while j < n
        invariant
            j <= n,
            n == src@.len(),
            blen == bytearray@.len(),
            at + n <= bytearray@.len(),
            bytearray@.len() == old(bytearray)@.len(),
            forall|k: int|
                0 <= k < bytearray@.len() && !(at <= k < at + j) ==> bytearray@[k] == old(bytearray)@[k],
            forall|k: int| 0 <= k < j ==> bytearray@[at + k] == src@[k],
        decreases n - j,
    {
        bytearray[at + j] = src[j];
        j = j + 1;
    }
    proof {
        assert(bytearray@.subrange(at as int, at + src@.len()) =~= src@);
    }
}

/// Writes a Pascal-style `String`: the capacity byte, the length byte,
/// then the text's UTF-8 bytes, which must fit the capacity.
pub fn set_string(bytearray: &mut [u8], byte_index: usize, max_size: u8, value: &str) -> (r: Result<
    (),
    CodecError,
>)
    ensures
        max_size > 254 || encode_utf8(value@).len() > max_size ==> r == Err::<(), CodecError>(
            CodecError::Format,
        ) && final(bytearray)@ == old(bytearray)@,
        max_size <= 254 && encode_utf8(value@).len() <= max_size && byte_index + 2 + encode_utf8(
            value@,
        ).len() > old(bytearray)@.len() ==> r == Err::<(), CodecError>(CodecError::Bounds)
            && final(bytearray)@ == old(bytearray)@,
        max_size <= 254 && encode_utf8(value@).len() <= max_size && byte_index + 2 + encode_utf8(
            value@,
        ).len() <= old(bytearray)@.len() ==> r == Ok::<(), CodecError>(()) && final(bytearray)@.len() == old(bytearray)@.len() && final(bytearray)@[byte_index as int] == max_size
            && final(bytearray)@[byte_index + 1] == encode_utf8(value@).len() as u8 && final(bytearray)@.subrange(byte_index + 2, byte_index + 2 + encode_utf8(value@).len()) == encode_utf8(
            value@,
        ) && (forall|k: int|
            0 <= k < old(bytearray)@.len() && !(byte_index <= k < byte_index + 2 + encode_utf8(
                value@,
            ).len()) ==> final(bytearray)@[k] == old(bytearray)@[k]),
{
    if max_size > 254 {
        return Err(CodecError::Format);
    }
    let bytes = value.as_bytes();
    let n = bytes.len();
    if n > max_size as usize {
        return Err(CodecError::Format);
    }
    if !(byte_index <= bytearray.len() && bytearray.len() - byte_index >= 2 && bytearray.len()
        - byte_index - 2 >= n) {
        return Err(CodecError::Bounds);
    }
    bytearray[byte_index] = max_size;
    bytearray[byte_index + 1] = n as u8;
    write_bytes(bytearray, byte_index + 2, bytes);
    Ok(())
}

/// Writes a fixed-width character field: the text's UTF-8 bytes, which
/// must fit `max_length`, padded to the full width with spaces.
pub fn set_fstring(
    bytearray: &mut [u8],
    byte_index: usize,
    max_length: usize,
    value: &str,
) -> (r: Result<(), CodecError>)
    ensures
        encode_utf8(value@).len() > max_length ==> r == Err::<(), CodecError>(CodecError::Format)
            && final(bytearray)@ == old(bytearray)@,
        encode_utf8(value@).len() <= max_length && byte_index + max_length > old(bytearray)@.len()
            ==> r == Err::<(), CodecError>(CodecError::Bounds) && final(bytearray)@ == old(bytearray)@,
        encode_utf8(value@).len() <= max_length && byte_index + max_length <= old(bytearray)@.len() ==> r == Ok::<(), CodecError>(()) && final(bytearray)@.len() == old(bytearray)@.len() && final(bytearray)@.subrange(
            byte_index as int,
            byte_index + encode_utf8(value@).len(),
        ) == encode_utf8(value@) && (forall|k: int|
            byte_index + encode_utf8(value@).len() <= k < byte_index + max_length ==> final(bytearray)@[k] == 32u8) && (forall|k: int|
            0 <= k < old(bytearray)@.len() && !(byte_index <= k < byte_index + max_length)
                ==> final(bytearray)@[k] == old(bytearray)@[k]),
{
    let bytes = value.as_bytes();
    let n = bytes.len();
    if n > max_length {
        return Err(CodecError::Format);
    }
    if !(byte_index <= bytearray.len() && bytearray.len() - byte_index >= max_length) {
        return Err(CodecError::Bounds);
    }
    let blen = bytearray.len();
    write_bytes(bytearray, byte_index, bytes);
    let mut j: usize = n;
    while j < max_length
        invariant
            n <= j <= max_length,
            n == encode_utf8(value@).len(),
            blen == bytearray@.len(),
            byte_index + max_length <= bytearray@.len(),
            bytearray@.len() == old(bytearray)@.len(),
            bytearray@.subrange(byte_index as int, byte_index + n) == encode_utf8(value@),
            forall|k: int| byte_index + n <= k < byte_index + j ==> bytearray@[k] == 32u8,
            forall|k: int|
                0 <= k < bytearray@.len() && !(byte_index <= k < byte_index + max_length)
                    ==> bytearray@[k] == old(bytearray)@[k],
        decreases max_length - j,
    {
        bytearray[byte_index + j] = 32u8;
        proof {
            assert(bytearray@.subrange(byte_index as int, byte_index + n) =~= encode_utf8(value@));
        }
        j = j + 1;
    }
    Ok(())
}

/// Round trip for the text types: the UTF-8 bytes that a string encoder
/// writes are valid and decode to the characters that went in.
pub proof fn lemma_string_round_trip(chars: Seq<char>)
    ensures
        vstd::utf8::valid_utf8(encode_utf8(chars)),
        vstd::utf8::decode_utf8(encode_utf8(chars)) == chars,
{
    vstd::utf8::encode_utf8_valid_utf8(chars);
    vstd::utf8::encode_utf8_decode_utf8(chars);
}

} // verus!