//! Decoders for the fixed-width S7 scalar types.
//!
//! Every decoder reads from a borrowed byte buffer at a byte offset,
//! never mutates it, and reports a `Bounds` error instead of panicking
//! when the requested span exceeds the buffer.

use vstd::prelude::*;
use crate::bcd::{bcd_check, bcd_to_byte, bcd_valid, bcd_value};
use crate::date::{date_from_day_offset, day_index, month_len, valid_date, Date, MAX_DATE_OFFSET};
use crate::dt::{decode_dt, dt_bcd_valid, dt_display_bytes, valid_datetime, DateTime};
use crate::error::CodecError;
use crate::text::{
    ascii_bytes, chars_of, dec_bytes, lemma_dec_bytes_ascii, lemma_pad_bytes_ascii, pad2_bytes,
    pad3_bytes, pad6_bytes, push_dec, push_pad2, push_pad3, string_from_ascii, string_from_utf8,
    trim_right_space_chars, trim_right_zeros, trim_string_end_spaces,
};
use vstd::utf8::{decode_utf8, valid_utf8};
use crate::wire::{
    be_val, lemma_be_val_bound, read_be, signed16, signed32, signed64, signed8, wire_to_i16,
    wire_to_i32, wire_to_i64, wire_to_i8,
};

verus! {

/// Bit `i` (0 = least significant) of a byte.
pub open spec fn bit_of(b: u8, i: u8) -> bool {
    (b >> i) & 1 == 1
}

/// Decodes a single bit: bit `bool_index` (LSB-first) of the byte at
/// `byte_index`.
pub fn get_bool(bytearray: &[u8], byte_index: usize, bool_index: usize) -> (r: Result<
    bool,
    CodecError,
>)
    requires
        bool_index <= 7,
    ensures
        byte_index < bytearray@.len() ==> r == Ok::<bool, CodecError>(
            bit_of(bytearray@[byte_index as int], bool_index as u8),
        ),
        byte_index >= bytearray@.len() ==> r == Err::<bool, CodecError>(CodecError::Bounds),
{
    if byte_index >= bytearray.len() {
        return Err(CodecError::Bounds);
    }
    let i = bool_index as u8;
    let index_value: u8 = 1u8 << i;
    let byte_value = bytearray[byte_index];
    let current_value = byte_value & index_value;
    proof {
        let b = byte_value;
        assert(i <= 7 ==> ((b & (1u8 << i) == (1u8 << i)) == ((b >> i) & 1 == 1)))
            by (bit_vector);
    }
    Ok(current_value == index_value)
}

/// Decodes one unsigned byte.
pub fn get_byte(bytearray: &[u8], byte_index: usize) -> (r: Result<u8, CodecError>)
    ensures
        byte_index < bytearray@.len() ==> r == Ok::<u8, CodecError>(bytearray@[byte_index as int]),
        byte_index >= bytearray@.len() ==> r == Err::<u8, CodecError>(CodecError::Bounds),
{
    if byte_index >= bytearray.len() {
        return Err(CodecError::Bounds);
    }
    Ok(bytearray[byte_index])
}

/// Decodes an unsigned byte (`USInt`); same wire form as `get_byte`.
pub fn get_usint(bytearray: &[u8], byte_index: usize) -> (r: Result<u8, CodecError>)
    ensures
        byte_index < bytearray@.len() ==> r == Ok::<u8, CodecError>(bytearray@[byte_index as int]),
        byte_index >= bytearray@.len() ==> r == Err::<u8, CodecError>(CodecError::Bounds),
{
    get_byte(bytearray, byte_index)
}

/// Decodes a signed byte (`SInt`) as two's complement.
pub fn get_sint(bytearray: &[u8], byte_index: usize) -> (r: Result<i8, CodecError>)
    ensures
        byte_index < bytearray@.len() ==> (r matches Ok(v) && v as int == signed8(
            bytearray@[byte_index as int] as int,
        )),
        byte_index >= bytearray@.len() ==> r == Err::<i8, CodecError>(CodecError::Bounds),
{
    if byte_index >= bytearray.len() {
        return Err(CodecError::Bounds);
    }
    Ok(wire_to_i8(bytearray[byte_index]))
}

/// True when the `width`-byte span at `byte_index` lies inside the buffer.
fn span_in_bounds(bytearray: &[u8], byte_index: usize, width: usize) -> (r: bool)
    ensures
        r == (byte_index + width <= bytearray@.len()),
{
    byte_index <= bytearray.len() && bytearray.len() - byte_index >= width
}

/// Decodes an unsigned 16-bit word, big-endian.
pub fn get_word(bytearray: &[u8], byte_index: usize) -> (r: Result<u16, CodecError>)
    ensures
        byte_index + 2 <= bytearray@.len() ==> (r matches Ok(v) && v as int == be_val(
            bytearray@.subrange(byte_index as int, byte_index + 2),
        )),
        byte_index + 2 > bytearray@.len() ==> r == Err::<u16, CodecError>(CodecError::Bounds),
{
    if !span_in_bounds(bytearray, byte_index, 2) {
        return Err(CodecError::Bounds);
    }
    let w = read_be(bytearray, byte_index, 2);
    proof {
        lemma_be_val_bound(bytearray@.subrange(byte_index as int, byte_index + 2));
        vstd::arithmetic::power2::lemma2_to64();
    }
    Ok(w as u16)
}

/// Decodes an unsigned 16-bit integer (`UInt`); same wire form as `get_word`.
pub fn get_uint(bytearray: &[u8], byte_index: usize) -> (r: Result<u16, CodecError>)
    ensures
        byte_index + 2 <= bytearray@.len() ==> (r matches Ok(v) && v as int == be_val(
            bytearray@.subrange(byte_index as int, byte_index + 2),
        )),
        byte_index + 2 > bytearray@.len() ==> r == Err::<u16, CodecError>(CodecError::Bounds),
{
    get_word(bytearray, byte_index)
}

/// Decodes a signed 16-bit integer, big-endian two's complement.
pub fn get_int(bytearray: &[u8], byte_index: usize) -> (r: Result<i16, CodecError>)
    ensures
        byte_index + 2 <= bytearray@.len() ==> (r matches Ok(v) && v as int == signed16(
            be_val(bytearray@.subrange(byte_index as int, byte_index + 2)),
        )),
        byte_index + 2 > bytearray@.len() ==> r == Err::<i16, CodecError>(CodecError::Bounds),
{
    match get_word(bytearray, byte_index) {
        Ok(w) => Ok(wire_to_i16(w)),
        Err(e) => Err(e),
    }
}

/// Decodes an unsigned 32-bit double word, big-endian.
pub fn get_dword(bytearray: &[u8], byte_index: usize) -> (r: Result<u32, CodecError>)
    ensures
        byte_index + 4 <= bytearray@.len() ==> (r matches Ok(v) && v as int == be_val(
            bytearray@.subrange(byte_index as int, byte_index + 4),
        )),
        byte_index + 4 > bytearray@.len() ==> r == Err::<u32, CodecError>(CodecError::Bounds),
{
    if !span_in_bounds(bytearray, byte_index, 4) {
        return Err(CodecError::Bounds);
    }
    let w = read_be(bytearray, byte_index, 4);
    proof {
        lemma_be_val_bound(bytearray@.subrange(byte_index as int, byte_index + 4));
        vstd::arithmetic::power2::lemma2_to64();
    }
    Ok(w as u32)
}

/// Decodes an unsigned 32-bit integer (`UDInt`); same wire form as
/// `get_dword`.
pub fn get_udint(bytearray: &[u8], byte_index: usize) -> (r: Result<u32, CodecError>)
    ensures
        byte_index + 4 <= bytearray@.len() ==> (r matches Ok(v) && v as int == be_val(
            bytearray@.subrange(byte_index as int, byte_index + 4),
        )),
        byte_index + 4 > bytearray@.len() ==> r == Err::<u32, CodecError>(CodecError::Bounds),
{
    get_dword(bytearray, byte_index)
}

/// Decodes a signed 32-bit integer, big-endian two's complement.
pub fn get_dint(bytearray: &[u8], byte_index: usize) -> (r: Result<i32, CodecError>)
    ensures
        byte_index + 4 <= bytearray@.len() ==> (r matches Ok(v) && v as int == signed32(
            be_val(bytearray@.subrange(byte_index as int, byte_index + 4)),
        )),
        byte_index + 4 > bytearray@.len() ==> r == Err::<i32, CodecError>(CodecError::Bounds),
{
    match get_dword(bytearray, byte_index) {
        Ok(w) => Ok(wire_to_i32(w)),
        Err(e) => Err(e),
    }
}

/// Decodes an unsigned 64-bit long word, big-endian.
pub fn get_lword(bytearray: &[u8], byte_index: usize) -> (r: Result<u64, CodecError>)
    ensures
        byte_index + 8 <= bytearray@.len() ==> (r matches Ok(v) && v as int == be_val(
            bytearray@.subrange(byte_index as int, byte_index + 8),
        )),
        byte_index + 8 > bytearray@.len() ==> r == Err::<u64, CodecError>(CodecError::Bounds),
{
    if !span_in_bounds(bytearray, byte_index, 8) {
        return Err(CodecError::Bounds);
    }
    Ok(read_be(bytearray, byte_index, 8))
}

/// Decodes an unsigned 64-bit integer (`ULInt`); same wire form as
/// `get_lword`.
pub fn get_ulint(bytearray: &[u8], byte_index: usize) -> (r: Result<u64, CodecError>)
    ensures
        byte_index + 8 <= bytearray@.len() ==> (r matches Ok(v) && v as int == be_val(
            bytearray@.subrange(byte_index as int, byte_index + 8),
        )),
        byte_index + 8 > bytearray@.len() ==> r == Err::<u64, CodecError>(CodecError::Bounds),
{
    get_lword(bytearray, byte_index)
}

/// Decodes a signed 64-bit integer, big-endian two's complement.
pub fn get_lint(bytearray: &[u8], byte_index: usize) -> (r: Result<i64, CodecError>)
    ensures
        byte_index + 8 <= bytearray@.len() ==> (r matches Ok(v) && v as int == signed64(
            be_val(bytearray@.subrange(byte_index as int, byte_index + 8)),
        )),
        byte_index + 8 > bytearray@.len() ==> r == Err::<i64, CodecError>(CodecError::Bounds),
{
    match get_lword(bytearray, byte_index) {
        Ok(w) => Ok(wire_to_i64(w)),
        Err(e) => Err(e),
    }
}

/// The number of milliseconds in one day: the exclusive upper bound of a
/// time-of-day value.
pub const MS_PER_DAY: u32 = 86_400_000;

/// Decodes a time of day (`TOD`): an unsigned 32-bit big-endian count of
/// milliseconds since midnight, which must be less than one full day.
pub fn get_tod(bytearray: &[u8], byte_index: usize) -> (r: Result<u32, CodecError>)
    ensures
        byte_index + 4 > bytearray@.len() ==> r == Err::<u32, CodecError>(CodecError::Bounds),
        byte_index + 4 <= bytearray@.len() ==> {
            let v = be_val(bytearray@.subrange(byte_index as int, byte_index + 4));
            if v < MS_PER_DAY {
                r == Ok::<u32, CodecError>(v as u32)
            } else {
                r == Err::<u32, CodecError>(CodecError::Range)
            }
        },
{
    let v = match get_dword(bytearray, byte_index) {
        Ok(v) => v,
        Err(e) => {
            return Err(e);
        },
    };
    if v >= MS_PER_DAY {
        return Err(CodecError::Range);
    }
    Ok(v)
}

/// Decodes a `DATE`: an unsigned 16-bit big-endian day count since
/// 1990-01-01, rejected when it falls after 2168-12-31.
pub fn get_date(bytearray: &[u8], byte_index: usize) -> (r: Result<Date, CodecError>)
    ensures
        byte_index + 2 > bytearray@.len() ==> r == Err::<Date, CodecError>(CodecError::Bounds),
        byte_index + 2 <= bytearray@.len() ==> {
            let n = be_val(bytearray@.subrange(byte_index as int, byte_index + 2));
            if n > MAX_DATE_OFFSET {
                r == Err::<Date, CodecError>(CodecError::Range)
            } else {
                r matches Ok(d) && valid_date(d) && 1990 <= d.year <= 2168 && day_index(d) == n
            }
        },
{
    let w = match get_word(bytearray, byte_index) {
        Ok(w) => w,
        Err(e) => {
            return Err(e);
        },
    };
    if w > MAX_DATE_OFFSET {
        return Err(CodecError::Range);
    }
    Ok(date_from_day_offset(w))
}

/// The rendering of a signed millisecond count as `[-]D:HH:MM:SS.mmm`.
pub open spec fn time_display_bytes(ms: int) -> Seq<u8> {
    let m = if ms < 0 { -ms } else { ms };
    (if ms < 0 { seq![45u8] } else { Seq::<u8>::empty() }) + dec_bytes(m / 86400000) + seq![58u8]
        + pad2_bytes((m / 3600000) % 24) + seq![58u8] + pad2_bytes((m / 60000) % 60) + seq![58u8]
        + pad2_bytes((m / 1000) % 60) + seq![46u8] + pad3_bytes(m % 1000)
}

/// Decodes a `TIME`: a signed 32-bit big-endian count of milliseconds,
/// rendered as a signed duration string `[-]D:HH:MM:SS.mmm`.
pub fn get_time(bytearray: &[u8], byte_index: usize) -> (r: Result<String, CodecError>)
    ensures
        byte_index + 4 > bytearray@.len() ==> r == Err::<String, CodecError>(CodecError::Bounds),
        byte_index + 4 <= bytearray@.len() ==> (r matches Ok(s) && s@ == chars_of(
            time_display_bytes(
                signed32(be_val(bytearray@.subrange(byte_index as int, byte_index + 4))),
            ),
        )),
{
    let w = match get_dword(bytearray, byte_index) {
        Ok(w) => w,
        Err(e) => {
            return Err(e);
        },
    };
    let v = wire_to_i32(w);
    let mag: u64 = if v < 0 {
        (-(v as i64)) as u64
    } else {
        v as u64
    };
    let mut out: Vec<u8> = Vec::new();
    if v < 0 {
        out.push(45u8);
    }
    push_dec(&mut out, mag / 86400000);
    out.push(58u8);
    push_pad2(&mut out, (mag / 3600000) % 24);
    out.push(58u8);
    push_pad2(&mut out, (mag / 60000) % 60);
    out.push(58u8);
    push_pad2(&mut out, (mag / 1000) % 60);
    out.push(46u8);
    push_pad3(&mut out, mag % 1000);
    proof {
        let ms = signed32(be_val(bytearray@.subrange(byte_index as int, byte_index + 4)));
        let m = if ms < 0 { -ms } else { ms };
        lemma_dec_bytes_ascii(m / 86400000);
        lemma_pad_bytes_ascii((m / 3600000) % 24);
        lemma_pad_bytes_ascii((m / 60000) % 60);
        lemma_pad_bytes_ascii((m / 1000) % 60);
        lemma_pad_bytes_ascii(m % 1000);
        assert(out@ =~= time_display_bytes(ms));
        assert(ascii_bytes(out@));
    }
    Ok(string_from_ascii(out))
}

/// The time base in microseconds selected by the high nibble of an
/// `S5TIME` cell's first byte.
pub open spec fn s5time_base(sel: int) -> int {
    if sel == 0 {
        10
    } else if sel == 1 {
        100
    } else if sel == 2 {
        1000
    } else {
        10000
    }
}

/// The microseconds of the duration an `S5TIME` cell denotes: the base
/// unit in microseconds times the three-digit BCD magnitude of the low
/// three nibbles.
pub open spec fn s5time_us(b0: u8, b1: u8) -> int {
    s5time_base(b0 as int / 16) * ((b0 as int % 16) * 100 + (b1 as int / 16) * 10 + (b1 as int
        % 16))
}

/// A whole-microsecond duration in the largest unit that keeps the
/// number at 1 or above: "0us", "<n>us" below a millisecond,
/// milliseconds below a second, else seconds, the fraction trimmed of
/// trailing zeros.
pub open spec fn duration_display_bytes(us: int) -> Seq<u8> {
    if us == 0 {
        seq![48u8, 117u8, 115u8]
    } else if us < 1000 {
        dec_bytes(us) + seq![117u8, 115u8]
    } else if us < 1_000_000 {
        dec_bytes(us / 1000) + (
        if us % 1000 == 0 {
            Seq::<u8>::empty()
        } else {
            seq![46u8] + trim_right_zeros(pad3_bytes(us % 1000))
        }) + seq![109u8, 115u8]
    } else {
        dec_bytes(us / 1_000_000) + (
        if us % 1_000_000 == 0 {
            Seq::<u8>::empty()
        } else {
            seq![46u8] + trim_right_zeros(pad6_bytes(us % 1_000_000))
        }) + seq![115u8]
    }
}

/// Appends the given digit bytes with their trailing zeros dropped.
fn push_trimmed_zeros(out: &mut Vec<u8>, digits: Vec<u8>)
    ensures
        final(out)@ == old(out)@ + trim_right_zeros(digits@),
        ascii_bytes(old(out)@) && ascii_bytes(digits@) ==> ascii_bytes(final(out)@),
{
    let mut d = digits;
    let ghost orig = d@;
    proof {
        assert(orig.subrange(0, orig.len() as int) =~= orig);
    }
    while d.len() > 0
        invariant
            d@.len() <= orig.len(),
            d@ == orig.subrange(0, d@.len() as int),
            trim_right_zeros(d@) == trim_right_zeros(orig),
        ensures
            d@.len() <= orig.len(),
            d@ == orig.subrange(0, d@.len() as int),
            d@ == trim_right_zeros(orig),
        decreases d.len(),
    {
        let last = d[d.len() - 1];
        if last != 48 {
            break ;
        }
        let ghost before = d@;
        d.pop();
        proof {
            assert(d@ =~= before.drop_last());
            assert(d@ =~= orig.subrange(0, d@.len() as int));
        }
    }
    let ghost kept = d@;
    out.append(&mut d);
    proof {
        if ascii_bytes(old(out)@) && ascii_bytes(orig) {
            assert forall|i: int| 0 <= i < out@.len() implies out@[i] < 128 by {
                if i >= old(out)@.len() {
                    assert(out@[i] == kept[i - old(out)@.len()]);
                    assert(kept[i - old(out)@.len()] == orig[i - old(out)@.len()]);
                }
            }
        }
    }
}

/// Renders a whole-microsecond duration.
fn duration_string(us: u64) -> (r: String)
    ensures
        r@ == chars_of(duration_display_bytes(us as int)),
{
    let mut out: Vec<u8> = Vec::new();
    if us == 0 {
        out.push(48u8);
        out.push(117u8);
        out.push(115u8);
        proof {
            assert(out@ =~= duration_display_bytes(0));
            assert(ascii_bytes(out@));
        }
    } else if us < 1000 {
        push_dec(&mut out, us);
        out.push(117u8);
        out.push(115u8);
        proof {
            lemma_dec_bytes_ascii(us as int);
            assert(out@ =~= duration_display_bytes(us as int));
            assert(ascii_bytes(out@));
        }
    } else if us < 1_000_000 {
        push_dec(&mut out, us / 1000);
        let frac = us % 1000;
        if frac != 0 {
            out.push(46u8);
            let mut digits: Vec<u8> = Vec::new();
            push_pad3(&mut digits, frac);
            proof {
                lemma_dec_bytes_ascii(us as int / 1000);
                lemma_pad_bytes_ascii(frac as int);
                assert(digits@ =~= pad3_bytes(frac as int));
            }
            push_trimmed_zeros(&mut out, digits);
        }
        out.push(109u8);
        out.push(115u8);
        proof {
            lemma_dec_bytes_ascii(us as int / 1000);
            lemma_pad_bytes_ascii(us as int % 1000);
            assert(out@ =~= duration_display_bytes(us as int));
            assert(ascii_bytes(out@));
        }
    } else {
        push_dec(&mut out, us / 1_000_000);
        let frac = us % 1_000_000;
        if frac != 0 {
            out.push(46u8);
            let mut digits: Vec<u8> = Vec::new();
            push_pad3(&mut digits, frac / 1000);
            push_pad3(&mut digits, frac % 1000);
            proof {
                lemma_dec_bytes_ascii(us as int / 1_000_000);
                lemma_pad_bytes_ascii(frac as int / 1000);
                lemma_pad_bytes_ascii(frac as int % 1000);
                assert(digits@ =~= pad6_bytes(frac as int));
                lemma_pad_bytes_ascii(frac as int);
            }
            push_trimmed_zeros(&mut out, digits);
        }
        out.push(115u8);
        proof {
            lemma_dec_bytes_ascii(us as int / 1_000_000);
            lemma_pad_bytes_ascii(us as int % 1_000_000);
            assert(out@ =~= duration_display_bytes(us as int));
            assert(ascii_bytes(out@));
        }
    }
    string_from_ascii(out)
}

/// Decodes an `S5TIME`: the high nibble of the first byte selects a
/// time base of 10, 100, 1000 or 10000 microseconds, the remaining
/// three nibbles are a BCD magnitude 0..=999, and the base times the
/// magnitude is rendered as a duration string.
pub fn get_s5time(bytearray: &[u8], byte_index: usize) -> (r: Result<String, CodecError>)
    ensures
        byte_index + 2 > bytearray@.len() ==> r == Err::<String, CodecError>(CodecError::Bounds),
        byte_index + 2 <= bytearray@.len() ==> {
            let b0 = bytearray@[byte_index as int];
            let b1 = bytearray@[byte_index + 1];
            if b0 as int / 16 > 3 || b0 as int % 16 > 9 || !bcd_valid(b1) {
                r == Err::<String, CodecError>(CodecError::Format)
            } else {
                r matches Ok(s) && s@ == chars_of(duration_display_bytes(s5time_us(b0, b1)))
            }
        },
{
    if !(byte_index <= bytearray.len() && bytearray.len() - byte_index >= 2) {
        return Err(CodecError::Bounds);
    }
    let b0 = bytearray[byte_index];
    let b1 = bytearray[byte_index + 1];
    let sel = b0 / 16;
    if sel > 3 || b0 % 16 > 9 || !bcd_check(b1) {
        return Err(CodecError::Format);
    }
    let base: u64 = if sel == 0 {
        10
    } else if sel == 1 {
        100
    } else if sel == 2 {
        1000
    } else {
        10000
    };
    let mag: u64 = (b0 % 16) as u64 * 100 + (b1 / 16) as u64 * 10 + (b1 % 16) as u64;
    Ok(duration_string(base * mag))
}

/// Decodes a `DATE_AND_TIME` (DT): eight BCD-packed bytes giving year
/// (century pivot at 90), month, day, hour, minute, second, and
/// milliseconds split over the seventh byte and the high nibble of the
/// eighth.
pub fn get_date_time_object(bytearray: &[u8], byte_index: usize) -> (r: Result<
    DateTime,
    CodecError,
>)
    ensures
        byte_index + 8 > bytearray@.len() ==> r == Err::<DateTime, CodecError>(CodecError::Bounds),
        byte_index + 8 <= bytearray@.len() ==> ({
            let b = bytearray@.subrange(byte_index as int, byte_index + 8);
            if !dt_bcd_valid(b) {
                r == Err::<DateTime, CodecError>(CodecError::Format)
            } else if !valid_datetime(decode_dt(b)) {
                r == Err::<DateTime, CodecError>(CodecError::Range)
            } else {
                r == Ok::<DateTime, CodecError>(decode_dt(b))
            }
        }),
{
    if !(byte_index <= bytearray.len() && bytearray.len() - byte_index >= 8) {
        return Err(CodecError::Bounds);
    }
    let b0 = bytearray[byte_index];
    let b1 = bytearray[byte_index + 1];
    let b2 = bytearray[byte_index + 2];
    let b3 = bytearray[byte_index + 3];
    let b4 = bytearray[byte_index + 4];
    let b5 = bytearray[byte_index + 5];
    let b6 = bytearray[byte_index + 6];
    let b7 = bytearray[byte_index + 7];
    if !(bcd_check(b0) && bcd_check(b1) && bcd_check(b2) && bcd_check(b3) && bcd_check(b4)
        && bcd_check(b5) && bcd_check(b6) && b7 / 16 <= 9) {
        return Err(CodecError::Format);
    }
    let yy = bcd_to_byte(b0);
    let year: u16 = if yy < 90 {
        2000 + yy as u16
    } else {
        1900 + yy as u16
    };
    let month = bcd_to_byte(b1);
    let day = bcd_to_byte(b2);
    let hour = bcd_to_byte(b3);
    let minute = bcd_to_byte(b4);
    let second = bcd_to_byte(b5);
    let millisecond: u16 = bcd_to_byte(b6) as u16 * 10 + (b7 / 16) as u16;
    let dt = DateTime { year, month, day, hour, minute, second, millisecond };
    proof {
        assert(dt == decode_dt(bytearray@.subrange(byte_index as int, byte_index + 8)));
    }
    let ok = month >= 1 && month <= 12 && day >= 1 && day <= month_len(year, month) && hour <= 23
        && minute <= 59 && second <= 59;
    if !ok {
        return Err(CodecError::Range);
    }
    Ok(dt)
}

/// Decodes a DT span and renders it as `YYYY-MM-DD HH:MM:SS[.mmm] UTC`.
#[verifier::rlimit(30)]
pub fn get_dt(bytearray: &[u8], byte_index: usize) -> (r: Result<String, CodecError>)
    ensures
        byte_index + 8 > bytearray@.len() ==> r == Err::<String, CodecError>(CodecError::Bounds),
        byte_index + 8 <= bytearray@.len() ==> ({
            let b = bytearray@.subrange(byte_index as int, byte_index + 8);
            if !dt_bcd_valid(b) {
                r == Err::<String, CodecError>(CodecError::Format)
            } else if !valid_datetime(decode_dt(b)) {
                r == Err::<String, CodecError>(CodecError::Range)
            } else {
                r matches Ok(s) && s@ == chars_of(dt_display_bytes(decode_dt(b)))
            }
        }),
{
    let dt = match get_date_time_object(bytearray, byte_index) {
        Ok(dt) => dt,
        Err(e) => {
            return Err(e);
        },
    };
    let mut out: Vec<u8> = Vec::new();
    push_dec(&mut out, dt.year as u64);
    out.push(45u8);
    push_pad2(&mut out, dt.month as u64);
    out.push(45u8);
    push_pad2(&mut out, dt.day as u64);
    out.push(32u8);
    push_pad2(&mut out, dt.hour as u64);
    out.push(58u8);
    push_pad2(&mut out, dt.minute as u64);
    out.push(58u8);
    push_pad2(&mut out, dt.second as u64);
    if dt.millisecond != 0 {
        out.push(46u8);
        push_pad3(&mut out, dt.millisecond as u64);
    }
    out.push(32u8);
    out.push(85u8);
    out.push(84u8);
    out.push(67u8);
    proof {
        lemma_dec_bytes_ascii(dt.year as int);
        lemma_pad_bytes_ascii(dt.month as int);
        lemma_pad_bytes_ascii(dt.day as int);
        lemma_pad_bytes_ascii(dt.hour as int);
        lemma_pad_bytes_ascii(dt.minute as int);
        lemma_pad_bytes_ascii(dt.second as int);
        lemma_pad_bytes_ascii(dt.millisecond as int);
        assert(out@ =~= dt_display_bytes(dt));
        assert(ascii_bytes(out@));
    }
    Ok(string_from_ascii(out))
}

/// Copies `count` buffer bytes starting at `start`.
fn copy_bytes(bytearray: &[u8], start: usize, count: usize) -> (r: Vec<u8>)
    requires
        start + count <= bytearray@.len(),
    ensures
        r@ == bytearray@.subrange(start as int, start + count),
{
    let blen = bytearray.len();
    let mut v: Vec<u8> = Vec::new();
    let mut j: usize = 0;
    proof {
        assert(v@ =~= bytearray@.subrange(start as int, start as int));
    }
    while j < count
        invariant
            j <= count,
            blen == bytearray@.len(),
            start + count <= bytearray@.len(),
            v@ == bytearray@.subrange(start as int, start + j),
        decreases count - j,
    {
        v.push(bytearray[start + j]);
        proof {
            assert(v@ =~= bytearray@.subrange(start as int, start + j + 1));
        }
        j = j + 1;
    }
    v
}

/// Decodes a Pascal-style `String`: a capacity byte (at most 254), a
/// length byte that must not exceed it, then `length` bytes of UTF-8
/// text.
pub fn get_string(bytearray: &[u8], byte_index: usize) -> (r: Result<String, CodecError>)
    ensures
        byte_index + 2 > bytearray@.len() ==> r == Err::<String, CodecError>(CodecError::Bounds),
        byte_index + 2 <= bytearray@.len() ==> ({
            let cap = bytearray@[byte_index as int];
            let len = bytearray@[byte_index + 1];
            if len > cap || cap > 254 {
                r == Err::<String, CodecError>(CodecError::Format)
            } else if byte_index + 2 + len > bytearray@.len() {
                r == Err::<String, CodecError>(CodecError::Bounds)
            } else {
                let data = bytearray@.subrange(byte_index + 2, byte_index + 2 + len);
                if valid_utf8(data) {
                    r matches Ok(s) && s@ == decode_utf8(data)
                } else {
                    r == Err::<String, CodecError>(CodecError::Format)
                }
            }
        }),
{
    if !(byte_index <= bytearray.len() && bytearray.len() - byte_index >= 2) {
        return Err(CodecError::Bounds);
    }
    let max_size = bytearray[byte_index];
    let str_length = bytearray[byte_index + 1];
    if str_length > max_size || max_size > 254 {
        return Err(CodecError::Format);
    }
    if bytearray.len() - (byte_index + 2) < str_length as usize {
        return Err(CodecError::Bounds);
    }
    let v = copy_bytes(bytearray, byte_index + 2, str_length as usize);
    match string_from_utf8(v) {
        Some(s) => Ok(s),
        None => Err(CodecError::Format),
    }
}

/// Decodes a fixed-width character field of `max_length` bytes of UTF-8
/// text, optionally trimming the trailing space padding.
pub fn get_fstring(
    bytearray: &[u8],
    byte_index: usize,
    max_length: usize,
    remove_padding: bool,
) -> (r: Result<String, CodecError>)
    ensures
        byte_index + max_length > bytearray@.len() ==> r == Err::<String, CodecError>(
            CodecError::Bounds,
        ),
        byte_index + max_length <= bytearray@.len() ==> ({
            let data = bytearray@.subrange(byte_index as int, byte_index + max_length);
            if !valid_utf8(data) {
                r == Err::<String, CodecError>(CodecError::Format)
            } else {
                r matches Ok(s) && s@ == (
                if remove_padding {
                    trim_right_space_chars(decode_utf8(data))
                } else {
                    decode_utf8(data)
                })
            }
        }),
{
    if !(byte_index <= bytearray.len() && bytearray.len() - byte_index >= max_length) {
        return Err(CodecError::Bounds);
    }
    let v = copy_bytes(bytearray, byte_index, max_length);
    let s = match string_from_utf8(v) {
        Some(s) => s,
        None => {
            return Err(CodecError::Format);
        },
    };
    if remove_padding {
        Ok(trim_string_end_spaces(s))
    } else {
        Ok(s)
    }
}

} // verus!