//! The settings record and its flat `key = value` parser.
//!
//! A configuration source is line-oriented text. For each key, the
//! first line whose text starts with the key is taken; its value is the
//! trimmed remainder of the line after its first `=`. A missing key or
//! a malformed value silently falls back to the documented default,
//! never an error.
//!
//! Scale parameters are parsed as plain decimals into fixed-point
//! [`Factor`] values in thousandths; fraction digits beyond the third
//! are dropped.

use vstd::arithmetic::div_mod::{
    lemma_div_is_ordered, lemma_div_multiples_vanish, lemma_fundamental_div_mod,
};
use vstd::prelude::*;
use vstd::string::StrSliceExecFns;

use crate::factor::Factor;

verus! {

/// True iff `i` starts a line of `data`: the very beginning of the
/// text, or the position right after a newline.
pub open spec fn is_line_start(data: Seq<char>, i: int) -> bool {
    i == 0 || data[i - 1] == '\n'
}

/// True iff a line of `data` starts at `i` and its text starts with
/// `key`.
pub open spec fn is_key_line_at(data: Seq<char>, key: Seq<char>, i: int) -> bool {
    0 <= i && i + key.len() <= data.len() && is_line_start(data, i) && data.subrange(
        i,
        i + key.len(),
    ) == key
}

/// The first position at or after `i` where a line starting with `key`
/// begins, if any.
pub open spec fn first_key_line_from(data: Seq<char>, key: Seq<char>, i: int) -> Option<int>
    decreases data.len() + 1 - i,
{
    if i < 0 || i + key.len() > data.len() {
        None
    } else if is_key_line_at(data, key, i) {
        Some(i)
    } else {
        first_key_line_from(data, key, i + 1)
    }
}

/// The first position of `c` in `data` within `[from, end)`, if any.
pub open spec fn first_char_from(data: Seq<char>, c: char, from: int, end: int) -> Option<int>
    decreases end - from,
{
    if from < 0 || from >= end || end > data.len() {
        None
    } else if data[from] == c {
        Some(from)
    } else {
        first_char_from(data, c, from + 1, end)
    }
}

/// True iff `c` is ASCII whitespace.
pub open spec fn is_ascii_ws(c: char) -> bool {
    c == ' ' || c == '\t' || c == '\n' || c == '\r' || c == '\x0C'
}

/// `s` with ASCII whitespace removed from both ends.
pub open spec fn trimmed(s: Seq<char>) -> Seq<char>
    decreases s.len(),
{
    if s.len() == 0 {
        s
    } else if is_ascii_ws(s.first()) {
        trimmed(s.drop_first())
    } else if is_ascii_ws(s.last()) {
        trimmed(s.drop_last())
    } else {
        s
    }
}

/// The value that `key` selects from `data`: on the first line starting
/// with `key`, the trimmed remainder after the line's first `=`, up to
/// the end of the line. `None` when no line starts with `key` or the
/// line holds no `=`.
pub open spec fn value_for_key(data: Seq<char>, key: Seq<char>) -> Option<Seq<char>> {
    match first_key_line_from(data, key, 0) {
        Option::None => Option::None,
        Option::Some(i) => {
            let line_end = match first_char_from(data, '\n', i, data.len() as int) {
                Option::Some(j) => j,
                Option::None => data.len() as int,
            };
            match first_char_from(data, '=', i, line_end) {
                Option::None => Option::None,
                Option::Some(p) => Option::Some(trimmed(data.subrange(p + 1, line_end))),
            }
        },
    }
}

/// True iff `c` is a decimal digit.
pub open spec fn is_digit(c: char) -> bool {
    48 <= c as int <= 57
}

/// The numeric value of the digit `c`.
pub open spec fn digit_val(c: char) -> int {
    c as int - 48
}

/// True iff every character of `s` is a decimal digit.
pub open spec fn all_digits(s: Seq<char>) -> bool {
    forall|i: int| 0 <= i < s.len() ==> is_digit(#[trigger] s[i])
}

/// The numeric value of a digit string, most significant digit first.
pub open spec fn digits_val(s: Seq<char>) -> int
    decreases s.len(),
{
    if s.len() == 0 {
        0
    } else {
        digits_val(s.drop_last()) * 10 + digit_val(s.last())
    }
}

/// A plain decimal natural number: non-empty and digits only.
pub open spec fn parsed_nat(s: Seq<char>) -> Option<int> {
    if s.len() > 0 && all_digits(s) {
        Option::Some(digits_val(s))
    } else {
        Option::None
    }
}

/// The value that `key` selects from `data`, read as a decimal natural
/// number.
pub open spec fn nat_value(data: Seq<char>, key: Seq<char>) -> Option<int> {
    match value_for_key(data, key) {
        Option::Some(v) => parsed_nat(v),
        Option::None => Option::None,
    }
}

/// The value that `key` selects from `data`, read as a decimal natural
/// number and bounded by `max`; `default` when the key is missing, the
/// value malformed, or the number too large.
pub open spec fn int_value(data: Seq<char>, key: Seq<char>, default: int, max: int) -> int {
    match nat_value(data, key) {
        Option::Some(n) => if n <= max {
            n
        } else {
            default
        },
        Option::None => default,
    }
}

/// The value that `key` selects from `data`, as text; `default` when
/// the key is missing or its line holds no `=`.
pub open spec fn string_value(data: Seq<char>, key: Seq<char>, default: Seq<char>) -> Seq<char> {
    match value_for_key(data, key) {
        Option::Some(v) => v,
        Option::None => default,
    }
}

/// The fraction part of a decimal, in thousandths: the first three
/// fraction digits weigh 100, 10 and 1; further digits are dropped.
pub open spec fn frac_milli(fp: Seq<char>) -> int {
    if fp.len() == 0 {
        0
    } else if fp.len() == 1 {
        100 * digit_val(fp[0])
    } else if fp.len() == 2 {
        100 * digit_val(fp[0]) + 10 * digit_val(fp[1])
    } else {
        100 * digit_val(fp[0]) + 10 * digit_val(fp[1]) + digit_val(fp[2])
    }
}

/// A plain decimal number read into thousandths: digits around at most
/// one point, at least one digit in all; fraction digits beyond the
/// third are dropped.
pub open spec fn parsed_milli(s: Seq<char>) -> Option<int> {
    match first_char_from(s, '.', 0, s.len() as int) {
        Option::None => match parsed_nat(s) {
            Option::Some(n) => Option::Some(1000 * n),
            Option::None => Option::None,
        },
        Option::Some(d) => {
            let ip = s.subrange(0, d);
            let fp = s.subrange(d + 1, s.len() as int);
            if (ip.len() > 0 || fp.len() > 0) && all_digits(ip) && all_digits(fp) {
                Option::Some(1000 * digits_val(ip) + frac_milli(fp))
            } else {
                Option::None
            }
        },
    }
}

/// The value that `key` selects from `data`, read as a decimal factor
/// in thousandths; `default` when the key is missing, the value
/// malformed, or the factor too large to represent.
pub open spec fn factor_value(data: Seq<char>, key: Seq<char>, default: Factor) -> Factor {
    match value_for_key(data, key) {
        Option::Some(v) => match parsed_milli(v) {
            Option::Some(m) => if m <= u32::MAX as int {
                Factor { milli: m as u32 }
            } else {
                default
            },
            Option::None => default,
        },
        Option::None => default,
    }
}

/// True iff a line of `data` starts at `i` with the text of `key`.
fn is_key_line_here(data: &str, dlen: usize, key: &str, klen: usize, i: usize) -> (r: bool)
    requires
        dlen == data@.len(),
        klen == key@.len(),
        i + klen <= dlen,
    ensures
        r == is_key_line_at(data@, key@, i as int),
{
    if i > 0 {
        if data.get_char(i - 1) != '\n' {
            return false;
        }
    }
    let mut j: usize = 0;
    while j < klen
        invariant
            dlen == data@.len(),
            klen == key@.len(),
            i + klen <= dlen,
            j <= klen,
            forall|m: int| 0 <= m < j ==> data@[i + m] == key@[m],
        decreases klen - j,
    {
        if data.get_char(i + j) != key.get_char(j) {
            proof {
                assert(data@.subrange(i as int, i + klen as int)[j as int] != key@[j as int]);
            }
            return false;
        }
        j = j + 1;
    }
    proof {
        assert(data@.subrange(i as int, i + klen as int) =~= key@);
    }
    true
}

/// Finds the first line of `data` that starts with `key`.
fn find_key_line(data: &str, dlen: usize, key: &str, klen: usize) -> (r: Option<usize>)
    requires
        dlen == data@.len(),
        klen == key@.len(),
        1 <= klen,
    ensures
        first_key_line_from(data@, key@, 0) == match r {
            Option::Some(i) => Option::Some(i as int),
            Option::None => Option::None::<int>,
        },
        r is Some ==> r.unwrap() + klen <= dlen,
{
    if klen > dlen {
        return Option::None;
    }
    let mut i: usize = 0;
    while i <= dlen - klen
        invariant
            dlen == data@.len(),
            klen == key@.len(),
            1 <= klen <= dlen,
            i <= dlen - klen + 1,
            first_key_line_from(data@, key@, 0) == first_key_line_from(data@, key@, i as int),
        decreases dlen - i,
    {
        if is_key_line_here(data, dlen, key, klen, i) {
            proof {
                assert(first_key_line_from(data@, key@, i as int) == Option::Some(i as int));
            }
            return Option::Some(i);
        }
        proof {
            assert(first_key_line_from(data@, key@, i as int) == first_key_line_from(
                data@,
                key@,
                i + 1,
            ));
        }
        i = i + 1;
    }
    proof {
        assert(first_key_line_from(data@, key@, i as int) == Option::None::<int>);
    }
    Option::None
}

/// Finds the first position of `c` in `data` within `[from, end)`.
fn find_char_in(data: &str, dlen: usize, c: char, from: usize, end: usize) -> (r: Option<usize>)
    requires
        dlen == data@.len(),
        from <= end <= dlen,
    ensures
        first_char_from(data@, c, from as int, end as int) == match r {
            Option::Some(j) => Option::Some(j as int),
            Option::None => Option::None::<int>,
        },
        r is Some ==> from <= r.unwrap() < end,
{
    let mut j: usize = from;
    while j < end
        invariant
            dlen == data@.len(),
            from <= j <= end <= dlen,
            first_char_from(data@, c, from as int, end as int) == first_char_from(
                data@,
                c,
                j as int,
                end as int,
            ),
        decreases end - j,
    {
        if data.get_char(j) == c {
            return Option::Some(j);
        }
        j = j + 1;
    }
    Option::None
}

/// Shrinks `[from, to)` to the span left after trimming ASCII
/// whitespace from both ends.
fn trim_span(data: &str, dlen: usize, from: usize, to: usize) -> (r: (usize, usize))
    requires
        dlen == data@.len(),
        from <= to <= dlen,
    ensures
        from <= r.0 <= r.1 <= to,
        data@.subrange(r.0 as int, r.1 as int) == trimmed(
            data@.subrange(from as int, to as int),
        ),
{
    let mut s: usize = from;
    let mut e: usize = to;
    while s < e
        invariant
            dlen == data@.len(),
            from <= s <= e <= to <= dlen,
            trimmed(data@.subrange(from as int, to as int)) == trimmed(
                data@.subrange(s as int, e as int),
            ),
        decreases e - s,
    {
        let c = data.get_char(s);
        if c == ' ' || c == '\t' || c == '\n' || c == '\r' || c == '\x0C' {
            proof {
                lemma_trim_front(data@, s as int, e as int);
            }
            s = s + 1;
        } else {
            let d = data.get_char(e - 1);
            if d == ' ' || d == '\t' || d == '\n' || d == '\r' || d == '\x0C' {
                proof {
                    lemma_trim_back(data@, s as int, e as int);
                }
                e = e - 1;
            } else {
                proof {
                    let sub = data@.subrange(s as int, e as int);
                    assert(sub.first() == data@[s as int]);
                    assert(sub.last() == data@[e - 1 as int]);
                    assert(trimmed(sub) == sub);
                }
                return (s, e);
            }
        }
    }
    proof {
        assert(data@.subrange(s as int, e as int).len() == 0);
        assert(trimmed(data@.subrange(s as int, e as int)) =~= data@.subrange(
            s as int,
            e as int,
        ));
    }
    (s, e)
}

/// Trimming is unmoved by dropping a leading whitespace character.
proof fn lemma_trim_front(data: Seq<char>, s: int, e: int)
    requires
        0 <= s < e <= data.len(),
        is_ascii_ws(data[s]),
    ensures
        trimmed(data.subrange(s, e)) == trimmed(data.subrange(s + 1, e)),
{
    let sub = data.subrange(s, e);
    assert(sub.first() == data[s]);
    assert(sub.drop_first() =~= data.subrange(s + 1, e));
}

/// Trimming is unmoved by dropping a trailing whitespace character
/// when the leading character is not whitespace.
proof fn lemma_trim_back(data: Seq<char>, s: int, e: int)
    requires
        0 <= s < e <= data.len(),
        !is_ascii_ws(data[s]),
        is_ascii_ws(data[e - 1]),
    ensures
        trimmed(data.subrange(s, e)) == trimmed(data.subrange(s, e - 1)),
{
    let sub = data.subrange(s, e);
    assert(sub.first() == data[s]);
    assert(sub.last() == data[e - 1]);
    if sub.len() == 1 {
    } else {
        assert(sub.drop_last() =~= data.subrange(s, e - 1));
    }
}

/// Finds the raw (not yet trimmed) value span that `key` selects: the
/// remainder after the first `=` of the first line starting with `key`,
/// up to the end of that line.
fn find_value_span(data: &str, dlen: usize, key: &str, klen: usize) -> (r: Option<(usize, usize)>)
    requires
        dlen == data@.len(),
        klen == key@.len(),
        1 <= klen,
    ensures
        match r {
            Option::Some(span) => span.0 <= span.1 <= dlen && value_for_key(data@, key@)
                == Option::Some(trimmed(data@.subrange(span.0 as int, span.1 as int))),
            Option::None => value_for_key(data@, key@) is None,
        },
{
    let line = find_key_line(data, dlen, key, klen);
    match line {
        Option::None => Option::None,
        Option::Some(i) => {
            let line_end = match find_char_in(data, dlen, '\n', i, dlen) {
                Option::Some(j) => j,
                Option::None => dlen,
            };
            match find_char_in(data, dlen, '=', i, line_end) {
                Option::None => Option::None,
                Option::Some(p) => Option::Some((p + 1, line_end)),
            }
        },
    }
}

/// Reads the span `[from, to)` of `data` as a decimal natural number;
/// `None` when the span is empty, holds a non-digit, or does not fit.
fn parse_u64_span(data: &str, dlen: usize, from: usize, to: usize) -> (r: Option<u64>)
    requires
        dlen == data@.len(),
        from <= to <= dlen,
    ensures
        match r {
            Option::Some(v) => parsed_nat(data@.subrange(from as int, to as int)) == Option::Some(
                v as int,
            ),
            Option::None => parsed_nat(data@.subrange(from as int, to as int)) is None
                || parsed_nat(data@.subrange(from as int, to as int)).unwrap() > u64::MAX as int,
        },
{
    if from == to {
        return Option::None;
    }
    let mut v: u64 = 0;
    let mut over: bool = false;
    let mut j: usize = from;
    while j < to
        invariant
            dlen == data@.len(),
            from <= j <= to <= dlen,
            from < to,
            all_digits(data@.subrange(from as int, j as int)),
            !over ==> v as int == digits_val(data@.subrange(from as int, j as int)),
            over ==> digits_val(data@.subrange(from as int, j as int)) > u64::MAX as int,
        decreases to - j,
    {
        let c = data.get_char(j);
        let cu = c as u32;
        if cu < 48 || cu > 57 {
            proof {
                assert(data@.subrange(from as int, to as int)[j - from as int] == c);
                assert(!all_digits(data@.subrange(from as int, to as int)));
            }
            return Option::None;
        }
        let d: u64 = (cu - 48) as u64;
        proof {
            let pre = data@.subrange(from as int, j as int);
            let post = data@.subrange(from as int, j + 1 as int);
            assert(post.drop_last() =~= pre);
            assert(post.last() == data@[j as int]);
            assert(digits_val(post) == digits_val(pre) * 10 + digit_val(data@[j as int]));
            assert forall|m: int| 0 <= m < post.len() implies is_digit(post[m]) by {
                if m < pre.len() {
                    assert(post[m] == pre[m]);
                } else {
                    assert(post[m] == data@[j as int]);
                }
            }
        }
        if over {
            proof {
                let pre = data@.subrange(from as int, j as int);
                assert(digits_val(pre) * 10 + digit_val(data@[j as int]) > u64::MAX as int);
            }
        } else if v > (u64::MAX - d) / 10 {
            proof {
                let m = u64::MAX as int;
                let dd = d as int;
                let vv = v as int;
                lemma_fundamental_div_mod(m - dd, 10);
                assert(10 * ((m - dd) / 10) + (m - dd) % 10 == m - dd);
                assert(vv >= (m - dd) / 10 + 1);
                assert(10 * vv + dd > m);
            }
            over = true;
        } else {
            proof {
                let m = u64::MAX as int;
                let dd = d as int;
                let vv = v as int;
                lemma_fundamental_div_mod(m - dd, 10);
                assert(10 * ((m - dd) / 10) <= m - dd);
                assert(10 * vv + dd <= m);
            }
            v = v * 10 + d;
        }
        j = j + 1;
    }
    if over {
        Option::None
    } else {
        Option::Some(v)
    }
}

/// A scan for `c` inside a subrange scans the subrange itself, shifted
/// by the subrange's start.
proof fn lemma_first_char_shift(data: Seq<char>, c: char, s: int, e: int, k: int)
    requires
        0 <= s,
        0 <= k,
        s + k <= e <= data.len(),
    ensures
        first_char_from(data, c, s + k, e) == match first_char_from(
            data.subrange(s, e),
            c,
            k,
            e - s,
        ) {
            Option::Some(j) => Option::Some(j + s),
            Option::None => Option::None::<int>,
        },
    decreases e - (s + k),
{
    let sub = data.subrange(s, e);
    if s + k >= e {
    } else {
        assert(sub[k] == data[s + k]);
        if data[s + k] == c {
        } else {
            lemma_first_char_shift(data, c, s, e, k + 1);
        }
    }
}

/// The record of all tunable parameters, immutable once loaded; every
/// field has a documented default so that the record is constructible
/// from a missing or partial configuration source.
pub struct Config {
    pub input_file: String,
    pub output_file: String,
    pub transformer: String,
    pub intensity: Factor,
    pub pitch: Factor,
    pub sample_rate: u32,
    pub bit_depth: u16,
    pub channels: u8,
    pub reverb_intensity: Factor,
    pub echo_delay: u32,
    pub echo_decay: Factor,
    pub gain: Factor,
    pub pan: Factor,
    pub low_gain: Factor,
    pub mid_gain: Factor,
    pub high_gain: Factor,
    pub threshold: u8,
    pub compression_ratio: Factor,
    pub fade_in_duration: usize,
    pub fade_out_duration: usize,
}

impl Config {
    /// The trimmed text value that `key` selects, or `default` when the
    /// key is missing or its line holds no `=`.
    fn get_value(data: &str, key: &str, default: &str) -> (r: String)
        requires
            key@.len() >= 1,
        ensures
            r@ == string_value(data@, key@, default@),
    {
        let dlen = data.unicode_len();
        let klen = key.unicode_len();
        match find_value_span(data, dlen, key, klen) {
            Option::None => default.to_owned(),
            Option::Some((a, b)) => {
                let (s, e) = trim_span(data, dlen, a, b);
                data.substring_char(s, e).to_owned()
            },
        }
    }

    /// The value that `key` selects, read as a natural number of at
    /// most `max`; `default` otherwise.
    fn get_nat(data: &str, key: &str, default: u64, max: u64) -> (r: u64)
        requires
            key@.len() >= 1,
            default <= max,
        ensures
            r as int == int_value(data@, key@, default as int, max as int),
            r <= max,
    {
        let dlen = data.unicode_len();
        let klen = key.unicode_len();
        match find_value_span(data, dlen, key, klen) {
            Option::None => default,
            Option::Some((a, b)) => {
                let (s, e) = trim_span(data, dlen, a, b);
                match parse_u64_span(data, dlen, s, e) {
                    Option::Some(v) => if v <= max {
                        v
                    } else {
                        default
                    },
                    Option::None => default,
                }
            },
        }
    }

    fn get_u32(data: &str, key: &str, default: u32) -> (r: u32)
        requires
            key@.len() >= 1,
        ensures
            r as int == int_value(data@, key@, default as int, u32::MAX as int),
    {
        Self::get_nat(data, key, default as u64, u32::MAX as u64) as u32
    }

    fn get_u16(data: &str, key: &str, default: u16) -> (r: u16)
        requires
            key@.len() >= 1,
        ensures
            r as int == int_value(data@, key@, default as int, u16::MAX as int),
    {
        Self::get_nat(data, key, default as u64, u16::MAX as u64) as u16
    }

    fn get_u8(data: &str, key: &str, default: u8) -> (r: u8)
        requires
            key@.len() >= 1,
        ensures
            r as int == int_value(data@, key@, default as int, u8::MAX as int),
    {
        Self::get_nat(data, key, default as u64, u8::MAX as u64) as u8
    }

    fn get_usize(data: &str, key: &str, default: usize) -> (r: usize)
        requires
            key@.len() >= 1,
        ensures
            r as int == int_value(data@, key@, default as int, usize::MAX as int),
    {
        Self::get_nat(data, key, default as u64, usize::MAX as u64) as usize
    }

    /// The value that `key` selects, read as a decimal factor in
    /// thousandths; `default` when missing, malformed, or too large.
    #[verifier::loop_isolation(false)]
    fn get_factor(data: &str, key: &str, default: Factor) -> (r: Factor)
        requires
            key@.len() >= 1,
        ensures
            r == factor_value(data@, key@, default),
    {
        let dlen = data.unicode_len();
        let klen = key.unicode_len();
        let span = find_value_span(data, dlen, key, klen);
        match span {
            Option::None => default,
            Option::Some((a, b)) => {
                let (s, e) = trim_span(data, dlen, a, b);
                let ghost v = data@.subrange(s as int, e as int);
                proof {
                    lemma_first_char_shift(data@, '.', s as int, e as int, 0);
                }
                match find_char_in(data, dlen, '.', s, e) {
                    Option::None => {
                        match parse_u64_span(data, dlen, s, e) {
                            Option::Some(n) => {
                                if n <= u32::MAX as u64 {
                                    let m = 1000 * n;
                                    if m <= u32::MAX as u64 {
                                        Factor::from_milli(m as u32)
                                    } else {
                                        default
                                    }
                                } else {
                                    default
                                }
                            },
                            Option::None => default,
                        }
                    },
                    Option::Some(dot) => {
                        let ghost ip = v.subrange(0, dot - s);
                        let ghost fp = v.subrange(dot - s + 1, v.len() as int);
                        proof {
                            assert(ip =~= data@.subrange(s as int, dot as int));
                            assert(fp =~= data@.subrange(dot + 1 as int, e as int));
                        }
                        if s == dot && dot + 1 == e {
                            // a lone point: no digit at all
                            return default;
                        }
                        // the fraction part must be digits only
                        let mut j: usize = dot + 1;
                        while j < e
                            invariant
                                dlen == data@.len(),
                                dot + 1 <= j <= e <= dlen,
                                all_digits(data@.subrange(dot + 1 as int, j as int)),
                            decreases e - j,
                        {
                            let cu = data.get_char(j) as u32;
                            if cu < 48 || cu > 57 {
                                proof {
                                    assert(data@.subrange(dot + 1 as int, e as int)[j - (dot + 1)
                                        as int] == data@[j as int]);
                                    assert(!all_digits(fp));
                                }
                                return default;
                            }
                            proof {
                                let pre = data@.subrange(dot + 1 as int, j as int);
                                let post = data@.subrange(dot + 1 as int, j + 1 as int);
                                assert forall|m: int| 0 <= m < post.len() implies is_digit(
                                    post[m],
                                ) by {
                                    if m < pre.len() {
                                        assert(post[m] == pre[m]);
                                    } else {
                                        assert(post[m] == data@[j as int]);
                                    }
                                }
                            }
                            j = j + 1;
                        }
                        proof {
                            assert(all_digits(fp));
                        }
                        // the first three fraction digits, in thousandths
                        let fplen = e - (dot + 1);
                        let mut fm: u64 = 0;
                        if fplen >= 1 {
                            let c0 = data.get_char(dot + 1) as u32;
                            proof {
                                assert(fp[0] == data@[dot + 1 as int]);
                                assert(is_digit(fp[0]));
                            }
                            fm = fm + 100 * ((c0 - 48) as u64);
                        }
                        if fplen >= 2 {
                            let c1 = data.get_char(dot + 2) as u32;
                            proof {
                                assert(fp[1] == data@[dot + 2 as int]);
                                assert(is_digit(fp[1]));
                            }
                            fm = fm + 10 * ((c1 - 48) as u64);
                        }
                        if fplen >= 3 {
                            let c2 = data.get_char(dot + 3) as u32;
                            proof {
                                assert(fp[2] == data@[dot + 3 as int]);
                                assert(is_digit(fp[2]));
                            }
                            fm = fm + ((c2 - 48) as u64);
                        }
                        proof {
                            assert(fm as int == frac_milli(fp));
                            assert(0 <= frac_milli(fp) < 1000);
                        }
                        // the integer part
                        let ipv: u64 = if s == dot {
                            proof {
                                assert(ip.len() == 0);
                                assert(digits_val(ip) == 0);
                            }
                            0
                        } else {
                            match parse_u64_span(data, dlen, s, dot) {
                                Option::Some(n) => {
                                    if n <= u32::MAX as u64 {
                                        n
                                    } else {
                                        return default;
                                    }
                                },
                                Option::None => {
                                    return default;
                                },
                            }
                        };
                        let m = 1000 * ipv + fm;
                        if m <= u32::MAX as u64 {
                            Factor::from_milli(m as u32)
                        } else {
                            default
                        }
                    },
                }
            },
        }
    }

    /// Builds the settings record from configuration text, falling back
    /// to the documented default wherever a key is missing or its value
    /// malformed.
    pub fn parse_config_data(data: &str) -> (r: Config)
        ensures
            r.input_file@ == string_value(data@, "input_file"@, "input.wav"@),
            r.output_file@ == string_value(data@, "output_file"@, "output.wav"@),
            r.transformer@ == string_value(data@, "transformer"@, "robot"@),
            r.intensity == factor_value(data@, "intensity"@, (Factor { milli: 800 })),
            r.pitch == factor_value(data@, "pitch"@, (Factor { milli: 1000 })),
            r.sample_rate as int == int_value(data@, "sample_rate"@, 44100, u32::MAX as int),
            r.bit_depth as int == int_value(data@, "bit_depth"@, 16, u16::MAX as int),
            r.channels as int == int_value(data@, "channels"@, 2, u8::MAX as int),
            r.reverb_intensity == factor_value(data@, "reverb_intensity"@, (Factor { milli: 500 })),
            r.echo_delay as int == int_value(data@, "echo_delay"@, 500, u32::MAX as int),
            r.echo_decay == factor_value(data@, "echo_decay"@, (Factor { milli: 300 })),
            r.gain == factor_value(data@, "gain"@, (Factor { milli: 1000 })),
            r.pan == factor_value(data@, "pan"@, (Factor { milli: 500 })),
            r.low_gain == factor_value(data@, "low_gain"@, (Factor { milli: 1000 })),
            r.mid_gain == factor_value(data@, "mid_gain"@, (Factor { milli: 1000 })),
            r.high_gain == factor_value(data@, "high_gain"@, (Factor { milli: 1000 })),
            r.threshold as int == int_value(data@, "threshold"@, 128, u8::MAX as int),
            r.compression_ratio == factor_value(
                data@,
                "compression_ratio"@,
                (Factor { milli: 2000 }),
            ),
            r.fade_in_duration as int == int_value(
                data@,
                "fade_in_duration"@,
                5000,
                usize::MAX as int,
            ),
            r.fade_out_duration as int == int_value(
                data@,
                "fade_out_duration"@,
                5000,
                usize::MAX as int,
            ),
    {
        proof {
            reveal_strlit("input_file");
            reveal_strlit("output_file");
            reveal_strlit("transformer");
            reveal_strlit("intensity");
            reveal_strlit("pitch");
            reveal_strlit("sample_rate");
            reveal_strlit("bit_depth");
            reveal_strlit("channels");
            reveal_strlit("reverb_intensity");
            reveal_strlit("echo_delay");
            reveal_strlit("echo_decay");
            reveal_strlit("gain");
            reveal_strlit("pan");
            reveal_strlit("low_gain");
            reveal_strlit("mid_gain");
            reveal_strlit("high_gain");
            reveal_strlit("threshold");
            reveal_strlit("compression_ratio");
            reveal_strlit("fade_in_duration");
            reveal_strlit("fade_out_duration");
        }
        Config {
            input_file: Self::get_value(data, "input_file", "input.wav"),
            output_file: Self::get_value(data, "output_file", "output.wav"),
            transformer: Self::get_value(data, "transformer", "robot"),
            intensity: Self::get_factor(data, "intensity", Factor::from_milli(800)),
            pitch: Self::get_factor(data, "pitch", Factor::from_milli(1000)),
            sample_rate: Self::get_u32(data, "sample_rate", 44100),
            bit_depth: Self::get_u16(data, "bit_depth", 16),
            channels: Self::get_u8(data, "channels", 2),
            reverb_intensity: Self::get_factor(data, "reverb_intensity", Factor::from_milli(500)),
            echo_delay: Self::get_u32(data, "echo_delay", 500),
            echo_decay: Self::get_factor(data, "echo_decay", Factor::from_milli(300)),
            gain: Self::get_factor(data, "gain", Factor::from_milli(1000)),
            pan: Self::get_factor(data, "pan", Factor::from_milli(500)),
            low_gain: Self::get_factor(data, "low_gain", Factor::from_milli(1000)),
            mid_gain: Self::get_factor(data, "mid_gain", Factor::from_milli(1000)),
            high_gain: Self::get_factor(data, "high_gain", Factor::from_milli(1000)),
            threshold: Self::get_u8(data, "threshold", 128),
            compression_ratio: Self::get_factor(data, "compression_ratio", Factor::from_milli(2000)),
            fade_in_duration: Self::get_usize(data, "fade_in_duration", 5000),
            fade_out_duration: Self::get_usize(data, "fade_out_duration", 5000),
        }
    }
}

} // verus!
