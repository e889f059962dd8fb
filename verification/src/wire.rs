//! The big-endian wire form shared by every multi-byte S7 scalar.
//!
//! `be_val` is the mathematical reading of a byte span as an unsigned
//! big-endian integer; `be_bytes` is its inverse, the `n`-byte encoding of
//! a value. `read_be` and `write_be` are the verified buffer primitives
//! that all fixed-width decoders and encoders are built on.

use vstd::prelude::*;
use vstd::arithmetic::power2::*;
use vstd::arithmetic::div_mod::*;

verus! {

/// The unsigned integer denoted by a byte sequence read big-endian.
pub open spec fn be_val(s: Seq<u8>) -> int
    decreases s.len(),
{
    if s.len() == 0 {
        0
    } else {
        be_val(s.drop_last()) * 256 + s.last()
    }
}

/// The `n`-byte big-endian encoding of `v`.
pub open spec fn be_bytes(v: int, n: nat) -> Seq<u8>
    recommends
        0 <= v < pow2(8 * n),
    decreases n,
{
    if n == 0 {
        Seq::empty()
    } else {
        be_bytes(v / 256, (n - 1) as nat).push((v % 256) as u8)
    }
}

pub proof fn lemma_be_val_bound(s: Seq<u8>)
    ensures
        0 <= be_val(s) < pow2(8 * s.len()),
    decreases s.len(),
{
    if s.len() == 0 {
        lemma2_to64();
    } else {
        lemma_be_val_bound(s.drop_last());
        lemma_pow2_adds(8 * (s.len() - 1) as nat, 8);
        lemma2_to64();
    }
}

pub proof fn lemma_be_bytes_len(v: int, n: nat)
    ensures
        be_bytes(v, n).len() == n,
    decreases n,
{
    if n > 0 {
        lemma_be_bytes_len(v / 256, (n - 1) as nat);
    }
}

/// Decoding inverts encoding: the big-endian reading of the `n`-byte
/// encoding of `v` is `v` again, for every `v` that fits in `n` bytes.
pub proof fn lemma_be_round_trip(v: int, n: nat)
    requires
        0 <= v < pow2(8 * n),
    ensures
        be_val(be_bytes(v, n)) == v,
    decreases n,
{
    if n == 0 {
        lemma2_to64();
    } else {
        let rest = be_bytes(v / 256, (n - 1) as nat);
        assert(be_bytes(v, n) == rest.push((v % 256) as u8));
        assert(rest.push((v % 256) as u8).drop_last() =~= rest);
        lemma_pow2_adds(8 * (n - 1) as nat, 8);
        lemma2_to64();
        assert(v / 256 < pow2(8 * (n - 1) as nat)) by {
            lemma_multiply_divide_lt(v, 256, pow2(8 * (n - 1) as nat) as int);
        }
        lemma_be_round_trip(v / 256, (n - 1) as nat);
        lemma_fundamental_div_mod(v, 256);
    }
}

/// Byte `j` of the `n`-byte encoding of `v`.
pub proof fn lemma_be_bytes_index(v: int, n: nat, j: int)
    requires
        0 <= v,
        0 <= j < n,
    ensures
        be_bytes(v, n).len() == n,
        be_bytes(v, n)[j] == (v / pow2(8 * (n - 1 - j) as nat) as int) % 256,
    decreases n,
{
    lemma_be_bytes_len(v, n);
    let rest = be_bytes(v / 256, (n - 1) as nat);
    lemma_be_bytes_len(v / 256, (n - 1) as nat);
    if j == n - 1 {
        lemma2_to64();
        assert(pow2(0) == 1);
        assert(v / 1 == v);
    } else {
        lemma_pos_div(v, 256);
        lemma_be_bytes_index(v / 256, (n - 1) as nat, j);
        lemma2_to64();
        lemma_pow2_adds(8, 8 * (n - 2 - j) as nat);
        lemma_pow2_pos(8 * (n - 2 - j) as nat);
        lemma_div_denominator(v, 256, pow2(8 * (n - 2 - j) as nat) as int);
    }
}

proof fn lemma_pos_div(v: int, d: int)
    requires
        0 <= v,
        0 < d,
    ensures
        0 <= v / d,
{
    lemma_div_is_ordered(0, v, d);
}

/// Reads `width` bytes at `byte_index` as an unsigned big-endian integer.
pub fn read_be(bytearray: &[u8], byte_index: usize, width: usize) -> (r: u64)
    requires
        1 <= width <= 8,
        byte_index + width <= bytearray@.len(),
    ensures
        r == be_val(bytearray@.subrange(byte_index as int, byte_index + width)),
{
    let blen = bytearray.len();
    let mut acc: u64 = 0;
    let mut j: usize = 0;
    proof {
        assert(bytearray@.subrange(byte_index as int, byte_index as int) =~= Seq::<u8>::empty());
    }
    while j < width
        invariant
            j <= width <= 8,
            blen == bytearray@.len(),
            byte_index + width <= bytearray@.len(),
            acc == be_val(bytearray@.subrange(byte_index as int, byte_index + j)),
        decreases width - j,
    {
        let sub = Ghost(bytearray@.subrange(byte_index as int, byte_index + j));
        proof {
            lemma_be_val_bound(sub@);
            lemma2_to64();
            lemma2_to64_rest();
            if 8 * j < 56 {
                lemma_pow2_strictly_increases(8 * j as nat, 56);
            }
            assert(bytearray@.subrange(byte_index as int, byte_index + j + 1)
                =~= sub@.push(bytearray@[byte_index + j]));
            assert(sub@.push(bytearray@[byte_index + j]).drop_last() =~= sub@);
        }
        acc = acc * 256 + (bytearray[byte_index + j] as u64);
        j = j + 1;
    }
    acc
}

/// Writes `value` as `width` big-endian bytes at `byte_index`, touching
/// nothing else.
pub fn write_be(bytearray: &mut [u8], byte_index: usize, width: usize, value: u64)
    requires
        1 <= width <= 8,
        byte_index + width <= old(bytearray)@.len(),
        value < pow2(8 * width as nat),
    ensures
        final(bytearray)@.len() == old(bytearray)@.len(),
        forall|k: int|
            0 <= k < old(bytearray)@.len() && !(byte_index <= k < byte_index + width)
                ==> final(bytearray)@[k] == old(bytearray)@[k],
        final(bytearray)@.subrange(byte_index as int, byte_index + width)
            == be_bytes(value as int, width as nat),
{
    let blen = bytearray.len();
    let mut vv: u64 = value;
    let mut k: usize = width;
    proof {
        lemma2_to64();
        assert(value as int / pow2(0) as int == value as int);
    }
    while k > 0
        invariant
            k <= width <= 8,
            blen == bytearray@.len(),
            byte_index + width <= bytearray@.len(),
            bytearray@.len() == old(bytearray)@.len(),
            vv == value as int / pow2(8 * (width - k) as nat) as int,
            forall|i: int|
                0 <= i < bytearray@.len() && !(byte_index + k <= i < byte_index + width)
                    ==> bytearray@[i] == old(bytearray)@[i],
            forall|j: int|
                k <= j < width
                    ==> bytearray@[byte_index + j] == be_bytes(value as int, width as nat)[j],
        decreases k,
    {
        let b: u8 = (vv % 256) as u8;
        bytearray[byte_index + k - 1] = b;
        proof {
            lemma_be_bytes_index(value as int, width as nat, k - 1);
            assert(8 * (width - 1 - (k - 1)) as nat == 8 * (width - k) as nat);
            lemma_pow2_pos(8 * (width - k) as nat);
            lemma_pos_div(value as int, pow2(8 * (width - k) as nat) as int);
            lemma_pow2_adds(8 * (width - k) as nat, 8);
            lemma_div_denominator(
                value as int,
                pow2(8 * (width - k) as nat) as int,
                256,
            );
            lemma2_to64();
        }
        vv = vv / 256;
        k = k - 1;
    }
    proof {
        lemma_be_bytes_len(value as int, width as nat);
        assert(bytearray@.subrange(byte_index as int, byte_index + width)
            =~= be_bytes(value as int, width as nat));
    }
}

/// Reads an unsigned wire value of the given bit width as two's complement.
pub open spec fn signed8(v: int) -> int {
    if v < 0x80 { v } else { v - 0x100 }
}

pub open spec fn signed16(v: int) -> int {
    if v < 0x8000 { v } else { v - 0x10000 }
}

pub open spec fn signed32(v: int) -> int {
    if v < 0x8000_0000 { v } else { v - 0x1_0000_0000 }
}

pub open spec fn signed64(v: int) -> int {
    if v < 0x8000_0000_0000_0000 { v } else { v - 0x1_0000_0000_0000_0000 }
}

/// The unsigned wire value that carries a signed one: its two's complement.
pub open spec fn unsigned8(v: int) -> int {
    if v >= 0 { v } else { v + 0x100 }
}

pub open spec fn unsigned16(v: int) -> int {
    if v >= 0 { v } else { v + 0x10000 }
}

pub open spec fn unsigned32(v: int) -> int {
    if v >= 0 { v } else { v + 0x1_0000_0000 }
}

pub open spec fn unsigned64(v: int) -> int {
    if v >= 0 { v } else { v + 0x1_0000_0000_0000_0000 }
}

/// Two's complement is its own inverse: every signed value survives the
/// trip onto the unsigned wire and back, in each of the four widths.
pub proof fn lemma_signed_round_trip(v: int)
    ensures
        -0x80 <= v < 0x80 ==> signed8(unsigned8(v)) == v,
        -0x8000 <= v < 0x8000 ==> signed16(unsigned16(v)) == v,
        -0x8000_0000 <= v < 0x8000_0000 ==> signed32(unsigned32(v)) == v,
        -0x8000_0000_0000_0000 <= v < 0x8000_0000_0000_0000 ==> signed64(unsigned64(v)) == v,
{
}

/// ... and in the other direction: every wire value decodes to the signed
/// value that re-encodes to it.
pub proof fn lemma_unsigned_round_trip(v: int)
    ensures
        0 <= v < 0x100 ==> unsigned8(signed8(v)) == v,
        0 <= v < 0x10000 ==> unsigned16(signed16(v)) == v,
        0 <= v < 0x1_0000_0000 ==> unsigned32(signed32(v)) == v,
        0 <= v < 0x1_0000_0000_0000_0000 ==> unsigned64(signed64(v)) == v,
{
}

/// Converts a decoded 16-bit wire value to the signed integer it denotes.
pub fn wire_to_i16(w: u16) -> (r: i16)
    ensures
        r as int == signed16(w as int),
{
    if w < 0x8000 {
        w as i16
    } else {
        ((w as i32) - 0x10000) as i16
    }
}

pub fn wire_to_i32(w: u32) -> (r: i32)
    ensures
        r as int == signed32(w as int),
{
    if w < 0x8000_0000 {
        w as i32
    } else {
        ((w as i64) - 0x1_0000_0000) as i32
    }
}

pub fn wire_to_i64(w: u64) -> (r: i64)
    ensures
        r as int == signed64(w as int),
{
    if w < 0x8000_0000_0000_0000 {
        w as i64
    } else {
        let m: u64 = u64::MAX - w;
        -(m as i64) - 1
    }
}

pub fn wire_to_i8(w: u8) -> (r: i8)
    ensures
        r as int == signed8(w as int),
{
    if w < 0x80 {
        w as i8
    } else {
        ((w as i16) - 0x100) as i8
    }
}

/// Converts a signed integer to the unsigned 16-bit value that carries it.
pub fn i16_to_wire(v: i16) -> (r: u16)
    ensures
        r as int == unsigned16(v as int),
{
    if v >= 0 {
        v as u16
    } else {
        ((v as i32) + 0x10000) as u16
    }
}

pub fn i32_to_wire(v: i32) -> (r: u32)
    ensures
        r as int == unsigned32(v as int),
{
    if v >= 0 {
        v as u32
    } else {
        ((v as i64) + 0x1_0000_0000) as u32
    }
}

pub fn i64_to_wire(v: i64) -> (r: u64)
    ensures
        r as int == unsigned64(v as int),
{
    if v >= 0 {
        v as u64
    } else {
        let m: u64 = (-(v + 1)) as u64;
        u64::MAX - m
    }
}

pub fn i8_to_wire(v: i8) -> (r: u8)
    ensures
        r as int == unsigned8(v as int),
{
    if v >= 0 {
        v as u8
    } else {
        ((v as i16) + 0x100) as u8
    }
}

} // verus!
