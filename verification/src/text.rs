//! Decimal rendering over ASCII bytes.
//!
//! The textual S7 types (`S5TIME`, `TIME`, `DT`) render through these
//! verified helpers: a number becomes a sequence of ASCII digit bytes,
//! and only the final, fully assembled byte sequence is turned into a
//! `String` through one trusted conversion.

use vstd::prelude::*;
use vstd::string::{StrSliceExecFns, StringExecFns};
use vstd::utf8::{
    decode_utf8, encode_utf8, encode_utf8_decode_utf8, encode_utf8_valid_utf8, is_ascii_chars,
    is_ascii_chars_encode_utf8, valid_utf8,
};

verus! {

/// The ASCII digit for one decimal digit value.
pub open spec fn digit_byte(d: int) -> u8
    recommends
        0 <= d <= 9,
{
    (48 + d) as u8
}

/// The shortest decimal rendering of `n` (so `0` is "0").
pub open spec fn dec_bytes(n: int) -> Seq<u8>
    recommends
        n >= 0,
    decreases n,
{
    if n < 10 {
        seq![digit_byte(n)]
    } else {
        dec_bytes(n / 10).push(digit_byte(n % 10))
    }
}

/// Two decimal digits, zero padded.
pub open spec fn pad2_bytes(n: int) -> Seq<u8>
    recommends
        0 <= n <= 99,
{
    seq![digit_byte(n / 10), digit_byte(n % 10)]
}

/// Three decimal digits, zero padded.
pub open spec fn pad3_bytes(n: int) -> Seq<u8>
    recommends
        0 <= n <= 999,
{
    seq![digit_byte(n / 100), digit_byte((n / 10) % 10), digit_byte(n % 10)]
}

/// Six decimal digits, zero padded: the thousands then the ones, three
/// digits each.
pub open spec fn pad6_bytes(n: int) -> Seq<u8>
    recommends
        0 <= n <= 999_999,
{
    pad3_bytes(n / 1000) + pad3_bytes(n % 1000)
}

/// Drops trailing ASCII `'0'` bytes.
pub open spec fn trim_right_zeros(s: Seq<u8>) -> Seq<u8>
    decreases s.len(),
{
    if s.len() == 0 {
        s
    } else if s.last() == 48u8 {
        trim_right_zeros(s.drop_last())
    } else {
        s
    }
}

/// Drops trailing space characters (code point 32).
pub open spec fn trim_right_space_chars(s: Seq<char>) -> Seq<char>
    decreases s.len(),
{
    if s.len() == 0 {
        s
    } else if s.last() as int == 32 {
        trim_right_space_chars(s.drop_last())
    } else {
        s
    }
}

/// All bytes are ASCII (below 128).
pub open spec fn ascii_bytes(s: Seq<u8>) -> bool {
    forall|i: int| 0 <= i < s.len() ==> s[i] < 128
}

pub proof fn lemma_dec_bytes_ascii(n: int)
    requires
        n >= 0,
    ensures
        ascii_bytes(dec_bytes(n)),
        dec_bytes(n).len() >= 1,
    decreases n,
{
    if n >= 10 {
        lemma_dec_bytes_ascii(n / 10);
    }
}

pub proof fn lemma_pad_bytes_ascii(n: int)
    ensures
        0 <= n <= 99 ==> ascii_bytes(pad2_bytes(n)),
        0 <= n <= 999 ==> ascii_bytes(pad3_bytes(n)),
        0 <= n <= 999_999 ==> ascii_bytes(pad6_bytes(n)),
{
}

/// The characters that a sequence of ASCII bytes spells.
pub open spec fn chars_of(s: Seq<u8>) -> Seq<char> {
    s.map(|_i: int, b: u8| b as char)
}

/// Appends the decimal rendering of `n`.
pub fn push_dec(out: &mut Vec<u8>, n: u64)
    ensures
        final(out)@ == old(out)@ + dec_bytes(n as int),
    decreases n,
{
    if n < 10 {
        out.push(48 + n as u8);
        proof {
            assert(old(out)@ + dec_bytes(n as int) =~= old(out)@.push((48 + n) as u8));
        }
    } else {
        push_dec(out, n / 10);
        let d: u8 = (n % 10) as u8;
        out.push(48 + d);
        proof {
            assert(old(out)@ + dec_bytes(n as int) =~= (old(out)@ + dec_bytes(n as int / 10)).push(
                digit_byte(n as int % 10),
            ));
        }
    }
}

/// Appends two zero-padded decimal digits.
pub fn push_pad2(out: &mut Vec<u8>, n: u64)
    requires
        n <= 99,
    ensures
        final(out)@ == old(out)@ + pad2_bytes(n as int),
{
    out.push(48 + (n / 10) as u8);
    out.push(48 + (n % 10) as u8);
    proof {
        assert(old(out)@ + pad2_bytes(n as int) =~= old(out)@.push(
            digit_byte(n as int / 10),
        ).push(digit_byte(n as int % 10)));
    }
}

/// Appends three zero-padded decimal digits.
pub fn push_pad3(out: &mut Vec<u8>, n: u64)
    requires
        n <= 999,
    ensures
        final(out)@ == old(out)@ + pad3_bytes(n as int),
{
    out.push(48 + (n / 100) as u8);
    out.push(48 + ((n / 10) % 10) as u8);
    out.push(48 + (n % 10) as u8);
    proof {
        assert(old(out)@ + pad3_bytes(n as int) =~= old(out)@.push(digit_byte(n as int / 100)).push(
            digit_byte((n as int / 10) % 10),
        ).push(digit_byte(n as int % 10)));
    }
}

/// ASCII bytes are valid UTF-8 and decode to one character per byte,
/// each with the byte's own code point.
pub proof fn lemma_ascii_decode(b: Seq<u8>)
    requires
        ascii_bytes(b),
    ensures
        valid_utf8(b),
        decode_utf8(b) == chars_of(b),
{
    let c = chars_of(b);
    assert(is_ascii_chars(c)) by {
        assert forall|i: int| 0 <= i < c.len() implies '\0' <= #[trigger] c[i] <= '\u{7f}' by {
            assert(c[i] == b[i] as char);
            assert(b[i] < 128);
        }
    }
    is_ascii_chars_encode_utf8(c);
    assert(encode_utf8(c) =~= b) by {
        assert forall|i: int| 0 <= i < b.len() implies encode_utf8(c)[i] == b[i] by {
            assert(c[i] as u8 == encode_utf8(c)[i]);
            assert((b[i] as char) as u8 == b[i]);
        }
    }
    encode_utf8_valid_utf8(c);
    encode_utf8_decode_utf8(c);
}

/// Builds a string from ASCII bytes, one character per byte.
pub fn string_from_ascii(bytes: Vec<u8>) -> (r: String)
    requires
        ascii_bytes(bytes@),
    ensures
        r@ == chars_of(bytes@),
{
    proof {
        lemma_ascii_decode(bytes@);
    }
    match string_from_utf8(bytes) {
        Some(s) => s,
        None => String::new(),
    }
}

/// Relies on `String::from_utf8`: it returns the string decoded from
/// the bytes exactly when they are valid UTF-8, and reports the invalid
/// bytes otherwise.
#[verifier::external_body]
pub fn string_from_utf8(bytes: Vec<u8>) -> (r: Option<String>)
    ensures
        ({
            match r {
                Some(s) => valid_utf8(bytes@) && s@ == decode_utf8(bytes@),
                None => !valid_utf8(bytes@),
            }
        }),
{
    match String::from_utf8(bytes) {
        Ok(s) => Some(s),
        Err(_) => None,
    }
}

/// Removes the trailing space characters of a string.
pub fn trim_string_end_spaces(s: String) -> (r: String)
    ensures
        r@ == trim_right_space_chars(s@),
{
    let n = s.as_str().unicode_len();
    let mut k: usize = n;
    proof {
        assert(s@.subrange(0, s@.len() as int) =~= s@);
    }
    while k > 0
        invariant
            k <= n,
            n == s@.len(),
            trim_right_space_chars(s@.subrange(0, k as int)) == trim_right_space_chars(s@),
        ensures
            k <= n,
            s@.subrange(0, k as int) == trim_right_space_chars(s@),
        decreases k,
    {
        let c = s.as_str().get_char(k - 1);
        let code = c as u32;
        proof {
            assert(c as int == code as int) by {
                assert(c as int <= 0x10FFFF);
            }
        }
        if code != 32 {
            proof {
                assert(s@.subrange(0, k as int).last() as int != 32);
            }
            break ;
        }
        proof {
            assert(s@.subrange(0, k as int).drop_last() =~= s@.subrange(0, k as int - 1));
        }
        k = k - 1;
    }
    let t = s.as_str().substring_char(0, k);
    String::from_str(t)
}

} // verus!
