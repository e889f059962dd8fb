//! The textual `TIME` grammar.
//!
//! An encode input such as `"0:0:0:1:0.0"` is scanned for the first
//! occurrence of: an optional `-`, four colon-separated digit runs, one
//! arbitrary separator character, and a trailing digit run. The scan is
//! leftmost-first and each digit run is greedy, shortened only where the
//! grammar demands a digit after the separator. The matched groups are
//! days, hours, minutes, seconds and milliseconds of a signed duration.

use vstd::prelude::*;
use crate::error::CodecError;

verus! {

/// An ASCII decimal digit.
pub open spec fn is_digit(c: char) -> bool {
    48 <= c as int <= 57
}

/// The length of the maximal digit run starting at `p`.
pub open spec fn digit_run_len(s: Seq<char>, p: int) -> int
    decreases s.len() - p,
{
    if p < 0 || p >= s.len() || !is_digit(s[p]) {
        0
    } else {
        1 + digit_run_len(s, p + 1)
    }
}

/// The number spelt by the `n` digits starting at `p`.
pub open spec fn digits_val(s: Seq<char>, p: int, n: int) -> int
    decreases n,
{
    if n <= 0 {
        0
    } else {
        digits_val(s, p, n - 1) * 10 + (s[p + n - 1] as int - 48)
    }
}

/// The largest `k'` in `1..=k` whose digit run prefix of length `k'` is
/// followed by one separator character and then a digit; 0 when none is.
pub open spec fn find_sep(s: Seq<char>, q: int, k: int) -> int
    decreases k,
{
    if k < 1 {
        0
    } else if q + k + 1 < s.len() && is_digit(s[q + k + 1]) {
        k
    } else {
        find_sep(s, q, k - 1)
    }
}

/// Where each matched group of the `TIME` grammar starts and how long it
/// is, for a match beginning at one position of the input.
pub struct TimeMatch {
    pub neg: bool,
    pub days_pos: int,
    pub days_len: int,
    pub hours_pos: int,
    pub hours_len: int,
    pub minutes_pos: int,
    pub minutes_len: int,
    pub seconds_pos: int,
    pub seconds_len: int,
    pub millis_pos: int,
    pub millis_len: int,
}

/// The grammar's match attempt at position `p`: optional `-` (code 45),
/// three digit runs each followed by `:` (code 58), then a digit run of
/// which the seconds keep the longest prefix that still leaves one
/// separator character and a final digit run for the milliseconds.
pub open spec fn match_at(s: Seq<char>, p: int) -> Option<TimeMatch> {
    let neg = p < s.len() && s[p] as int == 45;
    let q0 = if neg {
        p + 1
    } else {
        p
    };
    let n1 = digit_run_len(s, q0);
    let q1 = q0 + n1;
    if n1 == 0 || !(q1 < s.len() && s[q1] as int == 58) {
        None
    } else {
        let n2 = digit_run_len(s, q1 + 1);
        let q2 = q1 + 1 + n2;
        if n2 == 0 || !(q2 < s.len() && s[q2] as int == 58) {
            None
        } else {
            let n3 = digit_run_len(s, q2 + 1);
            let q3 = q2 + 1 + n3;
            if n3 == 0 || !(q3 < s.len() && s[q3] as int == 58) {
                None
            } else {
                let m = digit_run_len(s, q3 + 1);
                let k = find_sep(s, q3 + 1, m);
                if m == 0 || k < 1 {
                    None
                } else {
                    Some(
                        TimeMatch {
                            neg,
                            days_pos: q0,
                            days_len: n1,
                            hours_pos: q1 + 1,
                            hours_len: n2,
                            minutes_pos: q2 + 1,
                            minutes_len: n3,
                            seconds_pos: q3 + 1,
                            seconds_len: k,
                            millis_pos: q3 + 2 + k,
                            millis_len: digit_run_len(s, q3 + 2 + k),
                        },
                    )
                }
            }
        }
    }
}

/// The leftmost match at or after position `p`.
pub open spec fn first_match(s: Seq<char>, p: int) -> Option<TimeMatch>
    decreases s.len() + 1 - p,
{
    if p > s.len() {
        None
    } else {
        match match_at(s, p) {
            Some(m) => Some(m),
            None => first_match(s, p + 1),
        }
    }
}

/// The leftmost match of the `TIME` grammar in the whole input.
pub open spec fn time_match(s: Seq<char>) -> Option<TimeMatch> {
    first_match(s, 0)
}

/// The magnitude in milliseconds of a matched duration.
pub open spec fn match_magnitude(s: Seq<char>, m: TimeMatch) -> int {
    (((digits_val(s, m.days_pos, m.days_len) * 24 + digits_val(s, m.hours_pos, m.hours_len)) * 60
        + digits_val(s, m.minutes_pos, m.minutes_len)) * 60 + digits_val(
        s,
        m.seconds_pos,
        m.seconds_len,
    )) * 1000 + digits_val(s, m.millis_pos, m.millis_len)
}

/// The signed millisecond value of a matched duration.
pub open spec fn match_value(s: Seq<char>, m: TimeMatch) -> int {
    if m.neg {
        -match_magnitude(s, m)
    } else {
        match_magnitude(s, m)
    }
}

/// Every position inside a digit run holds a digit.
proof fn lemma_digit_run(s: Seq<char>, p: int)
    requires
        0 <= p <= s.len(),
    ensures
        digit_run_len(s, p) >= 0,
        p + digit_run_len(s, p) <= s.len(),
        forall|j: int| p <= j < p + digit_run_len(s, p) ==> is_digit(s[j]),
    decreases s.len() - p,
{
    if p < s.len() && is_digit(s[p]) {
        lemma_digit_run(s, p + 1);
    }
}

/// A digit value is non-negative, so a longer digit prefix never spells a
/// smaller number.
proof fn lemma_digits_val_monotone(s: Seq<char>, p: int, j: int, n: int)
    requires
        0 <= j <= n,
        forall|i: int| p <= i < p + n ==> is_digit(s[i]),
    ensures
        0 <= digits_val(s, p, j) <= digits_val(s, p, n),
    decreases n,
{
    if n > j {
        lemma_digits_val_monotone(s, p, j, n - 1);
        assert(digits_val(s, p, n - 1) * 10 >= digits_val(s, p, n - 1)) by (nonlinear_arith)
            requires
                digits_val(s, p, n - 1) >= 0,
        ;
    } else if n > 0 {
        lemma_digits_val_monotone(s, p, 0, n - 1);
        assert(digits_val(s, p, n - 1) * 10 >= 0) by (nonlinear_arith)
            requires
                digits_val(s, p, n - 1) >= 0,
        ;
    }
}

/// `a > x / k` exactly when `a * k > x`, for non-negative `a`, `x` and
/// positive `k`.
proof fn lemma_gt_div_iff_mul_gt(a: int, x: int, k: int)
    requires
        a >= 0,
        x >= 0,
        k > 0,
    ensures
        (a > x / k) <==> (a * k > x),
{
    let q = x / k;
    let r = x % k;
    vstd::arithmetic::div_mod::lemma_fundamental_div_mod(x, k);
    vstd::arithmetic::div_mod::lemma_mod_bound(x, k);
    if a > q {
        assert(a * k >= q * k + k) by (nonlinear_arith)
            requires
                a >= q + 1,
                k > 0,
        ;
    } else {
        assert(a * k <= q * k) by (nonlinear_arith)
            requires
                a <= q,
                k > 0,
                a >= 0,
        ;
    }
}

/// The magnitude dominates each of its five components.
proof fn lemma_magnitude_dominates(d: int, h: int, mi: int, se: int, ms: int)
    requires
        d >= 0,
        h >= 0,
        mi >= 0,
        se >= 0,
        ms >= 0,
    ensures
        (((d * 24 + h) * 60 + mi) * 60 + se) * 1000 + ms >= d,
        (((d * 24 + h) * 60 + mi) * 60 + se) * 1000 + ms >= h,
        (((d * 24 + h) * 60 + mi) * 60 + se) * 1000 + ms >= mi,
        (((d * 24 + h) * 60 + mi) * 60 + se) * 1000 + ms >= se,
        (((d * 24 + h) * 60 + mi) * 60 + se) * 1000 + ms >= ms,
{
    assert((((d * 24 + h) * 60 + mi) * 60 + se) * 1000 + ms >= d
        && (((d * 24 + h) * 60 + mi) * 60 + se) * 1000 + ms >= h
        && (((d * 24 + h) * 60 + mi) * 60 + se) * 1000 + ms >= mi
        && (((d * 24 + h) * 60 + mi) * 60 + se) * 1000 + ms >= se
        && (((d * 24 + h) * 60 + mi) * 60 + se) * 1000 + ms >= ms) by (nonlinear_arith)
        requires
            d >= 0,
            h >= 0,
            mi >= 0,
            se >= 0,
            ms >= 0,
    ;
}

/// What `find_sep` returns when it finds a split.
proof fn lemma_find_sep_props(s: Seq<char>, q: int, k: int)
    requires
        k >= 0,
    ensures
        0 <= find_sep(s, q, k) <= k,
        find_sep(s, q, k) >= 1 ==> q + find_sep(s, q, k) + 1 < s.len() && is_digit(
            s[q + find_sep(s, q, k) + 1],
        ),
    decreases k,
{
    if k >= 1 && !(q + k + 1 < s.len() && is_digit(s[q + k + 1])) {
        lemma_find_sep_props(s, q, k - 1);
    }
}

/// A successful match has well-formed groups: every group lies inside the
/// input, holds only digits, and is non-empty.
proof fn lemma_match_wf(s: Seq<char>, p: int, m: TimeMatch)
    requires
        0 <= p,
        match_at(s, p) == Some(m),
    ensures
        0 <= m.days_pos && m.days_len >= 1 && m.days_pos + m.days_len <= s.len(),
        forall|j: int| m.days_pos <= j < m.days_pos + m.days_len ==> is_digit(s[j]),
        0 <= m.hours_pos && m.hours_len >= 1 && m.hours_pos + m.hours_len <= s.len(),
        forall|j: int| m.hours_pos <= j < m.hours_pos + m.hours_len ==> is_digit(s[j]),
        0 <= m.minutes_pos && m.minutes_len >= 1 && m.minutes_pos + m.minutes_len <= s.len(),
        forall|j: int| m.minutes_pos <= j < m.minutes_pos + m.minutes_len ==> is_digit(s[j]),
        0 <= m.seconds_pos && m.seconds_len >= 1 && m.seconds_pos + m.seconds_len <= s.len(),
        forall|j: int| m.seconds_pos <= j < m.seconds_pos + m.seconds_len ==> is_digit(s[j]),
        0 <= m.millis_pos && m.millis_len >= 1 && m.millis_pos + m.millis_len <= s.len(),
        forall|j: int| m.millis_pos <= j < m.millis_pos + m.millis_len ==> is_digit(s[j]),
{
    let neg = p < s.len() && s[p] as int == 45;
    let q0 = if neg {
        p + 1
    } else {
        p
    };
    assert(q0 <= s.len());
    lemma_digit_run(s, q0);
    let n1 = digit_run_len(s, q0);
    let q1 = q0 + n1;
    lemma_digit_run(s, q1 + 1);
    let n2 = digit_run_len(s, q1 + 1);
    let q2 = q1 + 1 + n2;
    lemma_digit_run(s, q2 + 1);
    let n3 = digit_run_len(s, q2 + 1);
    let q3 = q2 + 1 + n3;
    lemma_digit_run(s, q3 + 1);
    let m0 = digit_run_len(s, q3 + 1);
    lemma_find_sep_props(s, q3 + 1, m0);
    let k = find_sep(s, q3 + 1, m0);
    if k >= 1 {
        lemma_digit_run(s, q3 + 2 + k);
        lemma_digit_run(s, q3 + 2 + k + 1);
        assert(digit_run_len(s, q3 + 2 + k) == 1 + digit_run_len(s, q3 + 2 + k + 1));
    }
}

/// Reads one character's code point.
fn char_code(s: &str, i: usize) -> (c: u32)
    requires
        i < s@.len(),
    ensures
        c == s@[i as int] as u32,
        c as int == s@[i as int] as int,
{
    let ch = s.get_char(i);
    ch as u32
}

/// Measures the digit run starting at `p`.
fn digit_run(s: &str, p: usize, slen: usize) -> (n: usize)
    requires
        p <= slen,
        slen == s@.len(),
    ensures
        n == digit_run_len(s@, p as int),
        p + n <= slen,
{
    let mut q: usize = p;
    while q < slen
        invariant
            p <= q <= slen,
            slen == s@.len(),
            digit_run_len(s@, p as int) == q - p + digit_run_len(s@, q as int),
        ensures
            p <= q <= slen,
            digit_run_len(s@, p as int) == q - p,
        decreases slen - q,
    {
        let c = char_code(s, q);
        if !(48 <= c && c <= 57) {
            proof {
                assert(!is_digit(s@[q as int]));
                assert(digit_run_len(s@, q as int) == 0);
            }
            break ;
        }
        proof {
            assert(is_digit(s@[q as int]));
            assert(digit_run_len(s@, q as int) == 1 + digit_run_len(s@, q as int + 1));
        }
        q = q + 1;
    }
    q - p
}

/// The groups of one match, as buffer positions.
struct ExecMatch {
    neg: bool,
    days_pos: usize,
    days_len: usize,
    hours_pos: usize,
    hours_len: usize,
    minutes_pos: usize,
    minutes_len: usize,
    seconds_pos: usize,
    seconds_len: usize,
    millis_pos: usize,
    millis_len: usize,
}

impl ExecMatch {
    spec fn as_spec(self) -> TimeMatch {
        TimeMatch {
            neg: self.neg,
            days_pos: self.days_pos as int,
            days_len: self.days_len as int,
            hours_pos: self.hours_pos as int,
            hours_len: self.hours_len as int,
            minutes_pos: self.minutes_pos as int,
            minutes_len: self.minutes_len as int,
            seconds_pos: self.seconds_pos as int,
            seconds_len: self.seconds_len as int,
            millis_pos: self.millis_pos as int,
            millis_len: self.millis_len as int,
        }
    }
}

/// Attempts the grammar at position `p`.
fn match_at_exec(s: &str, p: usize, slen: usize) -> (r: Option<ExecMatch>)
    requires
        p <= slen,
        slen == s@.len(),
    ensures
        r is None <==> match_at(s@, p as int) is None,
        r matches Some(em) ==> match_at(s@, p as int) == Some(em.as_spec()),
{
    let neg = p < slen && char_code(s, p) == 45;
    let q0 = if neg {
        p + 1
    } else {
        p
    };
    let n1 = digit_run(s, q0, slen);
    let q1 = q0 + n1;
    if n1 == 0 || !(q1 < slen && char_code(s, q1) == 58) {
        return None;
    }
    let n2 = digit_run(s, q1 + 1, slen);
    let q2 = q1 + 1 + n2;
    if n2 == 0 || !(q2 < slen && char_code(s, q2) == 58) {
        return None;
    }
    let n3 = digit_run(s, q2 + 1, slen);
    let q3 = q2 + 1 + n3;
    if n3 == 0 || !(q3 < slen && char_code(s, q3) == 58) {
        return None;
    }
    let m = digit_run(s, q3 + 1, slen);
    if m == 0 {
        return None;
    }
    let mut k: usize = m;
    while k >= 1
        invariant
            k <= m,
            q3 + 1 + m <= slen,
            slen == s@.len(),
            find_sep(s@, q3 as int + 1, m as int) == find_sep(s@, q3 as int + 1, k as int),
        ensures
            k <= m,
            find_sep(s@, q3 as int + 1, m as int) == k as int,
            k >= 1 ==> q3 + 2 + k < slen && is_digit(s@[q3 as int + 2 + k]),
        decreases k,
    {
        let pos = q3 + 1 + k;
        if slen - pos > 1 {
            let c = char_code(s, pos + 1);
            if 48 <= c && c <= 57 {
                proof {
                    assert(is_digit(s@[pos as int + 1]));
                    assert(find_sep(s@, q3 as int + 1, k as int) == k as int);
                }
                break ;
            }
        }
        proof {
            assert(find_sep(s@, q3 as int + 1, k as int) == find_sep(
                s@,
                q3 as int + 1,
                k as int - 1,
            ));
        }
        k = k - 1;
    }
    if k < 1 {
        return None;
    }
    let millis_len = digit_run(s, q3 + 2 + k, slen);
    let em = ExecMatch {
        neg,
        days_pos: q0,
        days_len: n1,
        hours_pos: q1 + 1,
        hours_len: n2,
        minutes_pos: q2 + 1,
        minutes_len: n3,
        seconds_pos: q3 + 1,
        seconds_len: k,
        millis_pos: q3 + 2 + k,
        millis_len,
    };
    proof {
        assert(match_at(s@, p as int) == Some(em.as_spec()));
    }
    Some(em)
}

/// Parses the `n`-digit run at `p`; `None` when the number exceeds
/// `i64::MAX`.
fn parse_run(s: &str, p: usize, n: usize) -> (r: Option<u64>)
    requires
        p + n <= s@.len(),
        s@.len() <= usize::MAX,
        forall|j: int| p <= j < p + n ==> is_digit(s@[j]),
    ensures
        r matches Some(v) ==> v == digits_val(s@, p as int, n as int) && v <= 0x7fff_ffff_ffff_ffff,
        r is None ==> digits_val(s@, p as int, n as int) > 0x7fff_ffff_ffff_ffff,
{
    let mut acc: u64 = 0;
    let mut j: usize = 0;
    while j < n
        invariant
            j <= n,
            p + n <= s@.len(),
            s@.len() <= usize::MAX,
            forall|i: int| p <= i < p + n ==> is_digit(s@[i]),
            acc == digits_val(s@, p as int, j as int),
            acc <= 0x7fff_ffff_ffff_ffff,
        decreases n - j,
    {
        let c = char_code(s, p + j);
        let d: u64 = (c - 48) as u64;
        if acc > (0x7fff_ffff_ffff_ffffu64 - d) / 10 {
            proof {
                lemma_gt_div_iff_mul_gt(acc as int, 0x7fff_ffff_ffff_ffff - d, 10);
                lemma_digits_val_monotone(s@, p as int, j + 1, n as int);
            }
            return None;
        }
        proof {
            lemma_gt_div_iff_mul_gt(acc as int, 0x7fff_ffff_ffff_ffff - d, 10);
        }
        acc = acc * 10 + d;
        j = j + 1;
    }
    Some(acc)
}

/// Parses a `TIME` duration string of the form
/// `[-]days:hours:minutes:seconds<sep>milliseconds` into its total signed
/// millisecond count. Inputs with no match of the grammar give a parse
/// error; matched values beyond `i64` give a range error.
pub fn parse_time_string(time_string: &str) -> (r: Result<i64, CodecError>)
    ensures
        match time_match(time_string@) {
            None => r == Err::<i64, CodecError>(CodecError::Parse),
            Some(m) => {
                let t = match_value(time_string@, m);
                if t < -0x7fff_ffff_ffff_ffff || t > 0x7fff_ffff_ffff_ffff {
                    r == Err::<i64, CodecError>(CodecError::Range)
                } else {
                    r == Ok::<i64, CodecError>(t as i64)
                }
            },
        },
{
    let slen = time_string.unicode_len();
    let mut p: usize = 0;
    while p <= slen
        invariant
            p <= slen,
            slen == time_string@.len(),
            first_match(time_string@, 0) == first_match(time_string@, p as int),
        decreases slen + 1 - p,
    {
        match match_at_exec(time_string, p, slen) {
            Some(em) => {
                let ghost sm = em.as_spec();
                let ghost sv = time_string@;
                proof {
                    assert(first_match(sv, p as int) == Some(sm));
                    assert(time_match(sv) == Some(sm));
                    lemma_match_wf(sv, p as int, sm);
                }
                let d = parse_run(time_string, em.days_pos, em.days_len);
                let h = parse_run(time_string, em.hours_pos, em.hours_len);
                let mi = parse_run(time_string, em.minutes_pos, em.minutes_len);
                let se = parse_run(time_string, em.seconds_pos, em.seconds_len);
                let ms = parse_run(time_string, em.millis_pos, em.millis_len);
                proof {
                    lemma_digits_val_monotone(sv, sm.days_pos, 0, sm.days_len);
                    lemma_digits_val_monotone(sv, sm.hours_pos, 0, sm.hours_len);
                    lemma_digits_val_monotone(sv, sm.minutes_pos, 0, sm.minutes_len);
                    lemma_digits_val_monotone(sv, sm.seconds_pos, 0, sm.seconds_len);
                    lemma_digits_val_monotone(sv, sm.millis_pos, 0, sm.millis_len);
                    lemma_magnitude_dominates(
                        digits_val(sv, sm.days_pos, sm.days_len),
                        digits_val(sv, sm.hours_pos, sm.hours_len),
                        digits_val(sv, sm.minutes_pos, sm.minutes_len),
                        digits_val(sv, sm.seconds_pos, sm.seconds_len),
                        digits_val(sv, sm.millis_pos, sm.millis_len),
                    );
                }
                let (d, h, mi, se, ms) = match (d, h, mi, se, ms) {
                    (Some(d), Some(h), Some(mi), Some(se), Some(ms)) => (d, h, mi, se, ms),
                    _ => {
                        return Err(CodecError::Range);
                    },
                };
                let mag: u128 = (((d as u128 * 24 + h as u128) * 60 + mi as u128) * 60
                    + se as u128) * 1000 + ms as u128;
                if mag > 0x7fff_ffff_ffff_ffff {
                    return Err(CodecError::Range);
                }
                let v = mag as u64 as i64;
                if em.neg {
                    return Ok(-v);
                }
                return Ok(v);
            },
            None => {
                if p == slen {
                    proof {
                        assert(first_match(time_string@, p as int) == first_match(
                            time_string@,
                            p as int + 1,
                        ));
                        assert(first_match(time_string@, p as int + 1) is None);
                    }
                    return Err(CodecError::Parse);
                }
                proof {
                    assert(first_match(time_string@, p as int) == first_match(
                        time_string@,
                        p as int + 1,
                    ));
                }
                p = p + 1;
            },
        }
    }
    Err(CodecError::Parse)
}

} // verus!
