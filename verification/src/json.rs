//! A JSON parser for the join request body.
//!
//! The inbound body must be a single JSON object holding a `device_id` member
//! and a `helper_psk` member, both with string values; other members are
//! allowed and skipped. The grammar is standard JSON: strings may use the
//! usual escapes (including `\uXXXX` with surrogate pairs) and must otherwise
//! hold well-formed UTF-8; numbers, literals, arrays and objects may appear as
//! values of the skipped members. Member strings are returned decoded, as
//! UTF-8 bytes.
//!
//! Every parsing function is specified against a spec-level recursive descent
//! over the byte sequence, so the exact language accepted and the exact
//! decoding of the two member strings are pinned down.

use vstd::prelude::*;

verus! {

/// JSON insignificant whitespace: space, tab, line feed, carriage return.
pub open spec fn is_ws(c: u8) -> bool {
    c == 0x20 || c == 0x09 || c == 0x0a || c == 0x0d
}

pub open spec fn is_digit(c: u8) -> bool {
    0x30 <= c <= 0x39
}

/// Index of the first non-whitespace byte at or after `i`.
pub open spec fn skip_ws(s: Seq<u8>, i: int) -> int
    decreases s.len() - i,
{
    if 0 <= i && i < s.len() && is_ws(s[i]) {
        skip_ws(s, i + 1)
    } else {
        i
    }
}

fn is_ws_byte(c: u8) -> (r: bool)
    ensures
        r == is_ws(c),
{
    c == 0x20 || c == 0x09 || c == 0x0a || c == 0x0d
}

fn is_digit_byte(c: u8) -> (r: bool)
    ensures
        r == is_digit(c),
{
    0x30 <= c && c <= 0x39
}

/// UTF-8 encoding of a Unicode scalar value.
pub open spec fn utf8_encode(cp: int) -> Seq<u8>
    recommends
        0 <= cp < 0x110000,
{
    if cp < 0x80 {
        seq![cp as u8]
    } else if cp < 0x800 {
        seq![(0xC0 + cp / 0x40) as u8, (0x80 + cp % 0x40) as u8]
    } else if cp < 0x10000 {
        seq![
            (0xE0 + cp / 0x1000) as u8,
            (0x80 + (cp / 0x40) % 0x40) as u8,
            (0x80 + cp % 0x40) as u8,
        ]
    } else {
        seq![
            (0xF0 + cp / 0x40000) as u8,
            (0x80 + (cp / 0x1000) % 0x40) as u8,
            (0x80 + (cp / 0x40) % 0x40) as u8,
            (0x80 + cp % 0x40) as u8,
        ]
    }
}

/// Value of one hexadecimal digit, upper or lower case.
pub open spec fn hex_val(c: u8) -> Option<int> {
    if 0x30 <= c <= 0x39 {
        Some((c - 0x30) as int)
    } else if 0x41 <= c <= 0x46 {
        Some(c - 0x41 + 10)
    } else if 0x61 <= c <= 0x66 {
        Some(c - 0x61 + 10)
    } else {
        None
    }
}

/// Value of the four hexadecimal digits at `i`, as in a `\uXXXX` escape.
pub open spec fn hex4(s: Seq<u8>, i: int) -> Option<int> {
    if 0 <= i && i + 4 <= s.len() {
        match (hex_val(s[i]), hex_val(s[i + 1]), hex_val(s[i + 2]), hex_val(s[i + 3])) {
            (Some(a), Some(b), Some(c), Some(d)) => Some(a * 0x1000 + b * 0x100 + c * 0x10 + d),
            _ => None,
        }
    } else {
        None
    }
}

/// Decode the escape whose introducing backslash stands just before `i`:
/// the decoded UTF-8 bytes and the index after the escape. A `\uXXXX` escape
/// with a high surrogate must be followed by a low-surrogate escape; a lone
/// surrogate is an error.
pub open spec fn unescape_at(s: Seq<u8>, i: int) -> Option<(Seq<u8>, int)> {
    if 0 <= i && i < s.len() {
        let c = s[i];
        if c == 0x22 || c == 0x5C || c == 0x2F {
            Some((seq![c], i + 1))
        } else if c == 0x62 {
            Some((seq![8u8], i + 1))
        } else if c == 0x66 {
            Some((seq![12u8], i + 1))
        } else if c == 0x6E {
            Some((seq![10u8], i + 1))
        } else if c == 0x72 {
            Some((seq![13u8], i + 1))
        } else if c == 0x74 {
            Some((seq![9u8], i + 1))
        } else if c == 0x75 {
            match hex4(s, i + 1) {
                None => None,
                Some(hi) => {
                    if 0xD800 <= hi < 0xDC00 {
                        if i + 11 <= s.len() && s[i + 5] == 0x5C && s[i + 6] == 0x75 {
                            match hex4(s, i + 7) {
                                None => None,
                                Some(lo) => {
                                    if 0xDC00 <= lo < 0xE000 {
                                        Some(
                                            (
                                                utf8_encode(
                                                    0x10000 + (hi - 0xD800) * 0x400 + (lo - 0xDC00),
                                                ),
                                                i + 11,
                                            ),
                                        )
                                    } else {
                                        None
                                    }
                                },
                            }
                        } else {
                            None
                        }
                    } else if 0xDC00 <= hi < 0xE000 {
                        None
                    } else {
                        Some((utf8_encode(hi), i + 5))
                    }
                },
            }
        } else {
            None
        }
    } else {
        None
    }
}

pub open spec fn is_cont(c: u8) -> bool {
    0x80 <= c <= 0xBF
}

/// For a byte at `i` that is not ASCII, the index just after the well-formed
/// multi-byte UTF-8 sequence starting there, or `None` if it is ill-formed
/// (overlong forms, surrogates and values above U+10FFFF rejected).
pub open spec fn utf8_char_end(s: Seq<u8>, i: int) -> Option<int>
    recommends
        0 <= i < s.len(),
        s[i] >= 0x80,
{
    let c = s[i];
    if 0xC2 <= c <= 0xDF {
        if i + 2 <= s.len() && is_cont(s[i + 1]) {
            Some(i + 2)
        } else {
            None
        }
    } else if c == 0xE0 {
        if i + 3 <= s.len() && 0xA0 <= s[i + 1] <= 0xBF && is_cont(s[i + 2]) {
            Some(i + 3)
        } else {
            None
        }
    } else if c == 0xED {
        if i + 3 <= s.len() && 0x80 <= s[i + 1] <= 0x9F && is_cont(s[i + 2]) {
            Some(i + 3)
        } else {
            None
        }
    } else if 0xE1 <= c <= 0xEF {
        if i + 3 <= s.len() && is_cont(s[i + 1]) && is_cont(s[i + 2]) {
            Some(i + 3)
        } else {
            None
        }
    } else if c == 0xF0 {
        if i + 4 <= s.len() && 0x90 <= s[i + 1] <= 0xBF && is_cont(s[i + 2]) && is_cont(s[i + 3]) {
            Some(i + 4)
        } else {
            None
        }
    } else if 0xF1 <= c <= 0xF3 {
        if i + 4 <= s.len() && is_cont(s[i + 1]) && is_cont(s[i + 2]) && is_cont(s[i + 3]) {
            Some(i + 4)
        } else {
            None
        }
    } else if c == 0xF4 {
        if i + 4 <= s.len() && 0x80 <= s[i + 1] <= 0x8F && is_cont(s[i + 2]) && is_cont(s[i + 3]) {
            Some(i + 4)
        } else {
            None
        }
    } else {
        None
    }
}

/// Decode a string body: `i` stands just after the opening quote, `acc` holds
/// what is decoded so far. Returns the decoded UTF-8 bytes and the index after
/// the closing quote. Unescaped control characters are errors.
pub open spec fn string_body(s: Seq<u8>, i: int, acc: Seq<u8>) -> Option<(Seq<u8>, int)>
    decreases s.len() - i,
{
    if 0 <= i && i < s.len() {
        let c = s[i];
        if c == 0x22 {
            Some((acc, i + 1))
        } else if c == 0x5C {
            match unescape_at(s, i + 1) {
                None => None,
                Some(ej) => {
                    if i + 1 < ej.1 && ej.1 <= s.len() {
                        string_body(s, ej.1, acc + ej.0)
                    } else {
                        None
                    }
                },
            }
        } else if c < 0x20 {
            None
        } else if c < 0x80 {
            string_body(s, i + 1, acc.push(c))
        } else {
            match utf8_char_end(s, i) {
                None => None,
                Some(j) => {
                    if i < j && j <= s.len() {
                        string_body(s, j, acc + s.subrange(i, j))
                    } else {
                        None
                    }
                },
            }
        }
    } else {
        None
    }
}

pub proof fn lemma_unescape_bounds(s: Seq<u8>, i: int)
    ensures
        unescape_at(s, i) matches Some(ej) ==> i < ej.1 <= s.len(),
{
}

/// Advance past insignificant whitespace.
fn ws_end(s: &[u8], i: usize) -> (r: usize)
    requires
        i <= s@.len(),
    ensures
        r == skip_ws(s@, i as int),
        i <= r <= s@.len(),
{
    let mut j = i;
    while j < s.len() && is_ws_byte(s[j])
        invariant
            i <= j <= s@.len(),
            skip_ws(s@, i as int) == skip_ws(s@, j as int),
        decreases s@.len() - j,
    {
        j = j + 1;
    }
    j
}

/// Index of the first non-digit byte at or after `i`.
pub open spec fn digits_end(s: Seq<u8>, i: int) -> int
    decreases s.len() - i,
{
    if 0 <= i && i < s.len() && is_digit(s[i]) {
        digits_end(s, i + 1)
    } else {
        i
    }
}

pub proof fn lemma_digits_end_bounds(s: Seq<u8>, i: int)
    requires
        0 <= i <= s.len(),
    ensures
        i <= digits_end(s, i) <= s.len(),
    decreases s.len() - i,
{
    if i < s.len() && is_digit(s[i]) {
        lemma_digits_end_bounds(s, i + 1);
    }
}

/// The index after the JSON number starting at `i`:
/// an optional minus, an integer part without leading zeros, an optional
/// fraction and an optional exponent.
pub open spec fn number_end(s: Seq<u8>, i: int) -> Option<int> {
    let p = if 0 <= i && i < s.len() && s[i] == 0x2D {
        i + 1
    } else {
        i
    };
    if 0 <= p && p < s.len() && is_digit(s[p]) {
        let q = if s[p] == 0x30 {
            p + 1
        } else {
            digits_end(s, p)
        };
        let t = if q < s.len() && s[q] == 0x2E {
            if q + 1 < s.len() && is_digit(s[q + 1]) {
                Some(digits_end(s, q + 1))
            } else {
                None
            }
        } else {
            Some(q)
        };
        match t {
            None => None,
            Some(u) => {
                if u < s.len() && (s[u] == 0x65 || s[u] == 0x45) {
                    let v = if u + 1 < s.len() && (s[u + 1] == 0x2B || s[u + 1] == 0x2D) {
                        u + 2
                    } else {
                        u + 1
                    };
                    if v < s.len() && is_digit(s[v]) {
                        Some(digits_end(s, v))
                    } else {
                        None
                    }
                } else {
                    Some(u)
                }
            },
        }
    } else {
        None
    }
}

/// The index after the literal `true`, `false` or `null` starting at `i`.
pub open spec fn lit_end(s: Seq<u8>, i: int) -> Option<int> {
    if 0 <= i && i < s.len() {
        if s[i] == 0x74 {
            if i + 4 <= s.len() && s[i + 1] == 0x72 && s[i + 2] == 0x75 && s[i + 3] == 0x65 {
                Some(i + 4)
            } else {
                None
            }
        } else if s[i] == 0x66 {
            if i + 5 <= s.len() && s[i + 1] == 0x61 && s[i + 2] == 0x6C && s[i + 3] == 0x73 && s[i
                + 4] == 0x65 {
                Some(i + 5)
            } else {
                None
            }
        } else if s[i] == 0x6E {
            if i + 4 <= s.len() && s[i + 1] == 0x75 && s[i + 2] == 0x6C && s[i + 3] == 0x6C {
                Some(i + 4)
            } else {
                None
            }
        } else {
            None
        }
    } else {
        None
    }
}

/// The index after the JSON value starting at `i` (no leading whitespace).
pub open spec fn skip_value(s: Seq<u8>, i: int) -> Option<int>
    decreases s.len() - i, 1int,
{
    if 0 <= i && i < s.len() {
        let c = s[i];
        if c == 0x22 {
            match string_body(s, i + 1, Seq::empty()) {
                None => None,
                Some(vj) => Some(vj.1),
            }
        } else if c == 0x7B {
            object_tail(s, i + 1)
        } else if c == 0x5B {
            array_tail(s, i + 1)
        } else if c == 0x2D || is_digit(c) {
            number_end(s, i)
        } else {
            lit_end(s, i)
        }
    } else {
        None
    }
}

/// The index after the rest of an object whose `{` stands just before `i`.
pub open spec fn object_tail(s: Seq<u8>, i: int) -> Option<int>
    decreases s.len() - i, 2int,
{
    let p = skip_ws(s, i);
    if i <= p && p < s.len() {
        if s[p] == 0x7D {
            Some(p + 1)
        } else {
            match member_end(s, p) {
                None => None,
                Some(j) => {
                    if i < j && j <= s.len() {
                        object_rest(s, j)
                    } else {
                        None
                    }
                },
            }
        }
    } else {
        None
    }
}

/// The index after one object member (key, colon, value) starting at the
/// key's opening quote at `i`.
pub open spec fn member_end(s: Seq<u8>, i: int) -> Option<int>
    decreases s.len() - i, 0int,
{
    if 0 <= i && i < s.len() && s[i] == 0x22 {
        match string_body(s, i + 1, Seq::empty()) {
            None => None,
            Some(kj) => {
                let p = skip_ws(s, kj.1);
                if p < s.len() && s[p] == 0x3A {
                    let q = skip_ws(s, p + 1);
                    if i < q && q <= s.len() {
                        skip_value(s, q)
                    } else {
                        None
                    }
                } else {
                    None
                }
            },
        }
    } else {
        None
    }
}

/// The index after the rest of an object, standing just after a member's value.
pub open spec fn object_rest(s: Seq<u8>, i: int) -> Option<int>
    decreases s.len() - i, 0int,
{
    let p = skip_ws(s, i);
    if i <= p && p < s.len() {
        if s[p] == 0x7D {
            Some(p + 1)
        } else if s[p] == 0x2C {
            let q = skip_ws(s, p + 1);
            if i < q && q <= s.len() {
                match member_end(s, q) {
                    None => None,
                    Some(j) => {
                        if i < j && j <= s.len() {
                            object_rest(s, j)
                        } else {
                            None
                        }
                    },
                }
            } else {
                None
            }
        } else {
            None
        }
    } else {
        None
    }
}

/// The index after the rest of an array whose `[` stands just before `i`.
pub open spec fn array_tail(s: Seq<u8>, i: int) -> Option<int>
    decreases s.len() - i, 2int,
{
    let p = skip_ws(s, i);
    if i <= p && p < s.len() {
        if s[p] == 0x5D {
            Some(p + 1)
        } else {
            match skip_value(s, p) {
                None => None,
                Some(j) => {
                    if i < j && j <= s.len() {
                        array_rest(s, j)
                    } else {
                        None
                    }
                },
            }
        }
    } else {
        None
    }
}

/// The index after the rest of an array, standing just after an element.
pub open spec fn array_rest(s: Seq<u8>, i: int) -> Option<int>
    decreases s.len() - i, 0int,
{
    let p = skip_ws(s, i);
    if i <= p && p < s.len() {
        if s[p] == 0x5D {
            Some(p + 1)
        } else if s[p] == 0x2C {
            let q = skip_ws(s, p + 1);
            if i < q && q <= s.len() {
                match skip_value(s, q) {
                    None => None,
                    Some(j) => {
                        if i < j && j <= s.len() {
                            array_rest(s, j)
                        } else {
                            None
                        }
                    },
                }
            } else {
                None
            }
        } else {
            None
        }
    } else {
        None
    }
}

/// The decoded bytes of the key `device_id`.
pub open spec fn device_key() -> Seq<u8> {
    seq![0x64u8, 0x65u8, 0x76u8, 0x69u8, 0x63u8, 0x65u8, 0x5Fu8, 0x69u8, 0x64u8]
}

/// The decoded bytes of the key `helper_psk`.
pub open spec fn psk_key() -> Seq<u8> {
    seq![0x68u8, 0x65u8, 0x6Cu8, 0x70u8, 0x65u8, 0x72u8, 0x5Fu8, 0x70u8, 0x73u8, 0x6Bu8]
}

/// Parse the members of the top-level object, starting at a key's opening
/// quote, tracking the decoded `device_id` and `helper_psk` values seen so
/// far. A repeated tracked key, or a tracked key whose value is not a string,
/// is an error; other members are skipped. Both tracked members must be
/// present when the closing brace is reached.
pub open spec fn members(s: Seq<u8>, i: int, dev: Option<Seq<u8>>, psk: Option<Seq<u8>>) -> Option<
    (Seq<u8>, Seq<u8>, int),
>
    decreases s.len() - i, 1int,
{
    if 0 <= i && i < s.len() && s[i] == 0x22 {
        match string_body(s, i + 1, Seq::empty()) {
            None => None,
            Some(kj) => {
                let p = skip_ws(s, kj.1);
                if p < s.len() && s[p] == 0x3A {
                    let q = skip_ws(s, p + 1);
                    if kj.0 == device_key() || kj.0 == psk_key() {
                        if q < s.len() && s[q] == 0x22 {
                            match string_body(s, q + 1, Seq::empty()) {
                                None => None,
                                Some(vr) => {
                                    if i < vr.1 && vr.1 <= s.len() {
                                        if kj.0 == device_key() {
                                            if dev is Some {
                                                None
                                            } else {
                                                members_rest(s, vr.1, Some(vr.0), psk)
                                            }
                                        } else {
                                            if psk is Some {
                                                None
                                            } else {
                                                members_rest(s, vr.1, dev, Some(vr.0))
                                            }
                                        }
                                    } else {
                                        None
                                    }
                                },
                            }
                        } else {
                            None
                        }
                    } else {
                        match skip_value(s, q) {
                            None => None,
                            Some(r) => {
                                if i < r && r <= s.len() {
                                    members_rest(s, r, dev, psk)
                                } else {
                                    None
                                }
                            },
                        }
                    }
                } else {
                    None
                }
            },
        }
    } else {
        None
    }
}

/// After a member's value: either the closing brace, with both tracked
/// members required, or a comma and the next member.
pub open spec fn members_rest(
    s: Seq<u8>,
    i: int,
    dev: Option<Seq<u8>>,
    psk: Option<Seq<u8>>,
) -> Option<(Seq<u8>, Seq<u8>, int)>
    decreases s.len() - i, 0int,
{
    let p = skip_ws(s, i);
    if i <= p && p < s.len() {
        if s[p] == 0x7D {
            match (dev, psk) {
                (Some(d), Some(k)) => Some((d, k, p + 1)),
                _ => None,
            }
        } else if s[p] == 0x2C {
            let q = skip_ws(s, p + 1);
            if i < q && q <= s.len() {
                members(s, q, dev, psk)
            } else {
                None
            }
        } else {
            None
        }
    } else {
        None
    }
}

/// What the whole body parses to: the decoded `device_id` and `helper_psk`
/// strings of the single top-level object, or `None` when the body is not
/// exactly one such object (with nothing but whitespace around it).
pub open spec fn spec_parse_join(s: Seq<u8>) -> Option<(Seq<u8>, Seq<u8>)> {
    let i = skip_ws(s, 0);
    if i < s.len() && s[i] == 0x7B {
        let p = skip_ws(s, i + 1);
        match members(s, p, None, None) {
            None => None,
            Some(dkj) => {
                if skip_ws(s, dkj.2) == s.len() {
                    Some((dkj.0, dkj.1))
                } else {
                    None
                }
            },
        }
    } else {
        None
    }
}

fn is_cont_byte(c: u8) -> (r: bool)
    ensures
        r == is_cont(c),
{
    0x80 <= c && c <= 0xBF
}

fn hex_digit(c: u8) -> (r: Option<u8>)
    ensures
        match hex_val(c) {
            None => r is None,
            Some(v) => r == Some(v as u8),
        },
{
    if 0x30 <= c && c <= 0x39 {
        Some(c - 0x30)
    } else if 0x41 <= c && c <= 0x46 {
        Some(c - 0x41 + 10)
    } else if 0x61 <= c && c <= 0x66 {
        Some(c - 0x61 + 10)
    } else {
        None
    }
}

fn hex4_val(s: &[u8], i: usize) -> (r: Option<u32>)
    requires
        i <= s@.len(),
    ensures
        match hex4(s@, i as int) {
            None => r is None,
            Some(v) => r == Some(v as u32),
        },
{
    if s.len() - i >= 4 {
        match (hex_digit(s[i]), hex_digit(s[i + 1]), hex_digit(s[i + 2]), hex_digit(s[i + 3])) {
            (Some(a), Some(b), Some(c), Some(d)) => Some(
                (a as u32) * 0x1000 + (b as u32) * 0x100 + (c as u32) * 0x10 + (d as u32),
            ),
            _ => None,
        }
    } else {
        None
    }
}

/// Append the UTF-8 encoding of the scalar value `cp` to `acc`.
fn push_utf8(acc: &mut Vec<u8>, cp: u32)
    requires
        cp < 0x110000,
    ensures
        final(acc)@ == old(acc)@ + utf8_encode(cp as int),
{
    if cp < 0x80 {
        acc.push(cp as u8);
        assert(final(acc)@ =~= old(acc)@ + utf8_encode(cp as int));
    } else if cp < 0x800 {
        acc.push((0xC0 + cp / 0x40) as u8);
        acc.push((0x80 + cp % 0x40) as u8);
        assert(final(acc)@ =~= old(acc)@ + utf8_encode(cp as int));
    } else if cp < 0x10000 {
        acc.push((0xE0 + cp / 0x1000) as u8);
        acc.push((0x80 + (cp / 0x40) % 0x40) as u8);
        acc.push((0x80 + cp % 0x40) as u8);
        assert(final(acc)@ =~= old(acc)@ + utf8_encode(cp as int));
    } else {
        acc.push((0xF0 + cp / 0x40000) as u8);
        acc.push((0x80 + (cp / 0x1000) % 0x40) as u8);
        acc.push((0x80 + (cp / 0x40) % 0x40) as u8);
        acc.push((0x80 + cp % 0x40) as u8);
        assert(final(acc)@ =~= old(acc)@ + utf8_encode(cp as int));
    }
}

/// Decode the escape after a backslash, appending its bytes to `acc`.
fn unescape(s: &[u8], b: usize, acc: &mut Vec<u8>) -> (r: Option<usize>)
    requires
        b <= s@.len(),
    ensures
        match unescape_at(s@, b as int) {
            None => r is None,
            Some(ej) => r == Some(ej.1 as usize) && final(acc)@ == old(acc)@ + ej.0 && b < ej.1
                <= s@.len(),
        },
{
    proof {
        lemma_unescape_bounds(s@, b as int);
    }
    if b >= s.len() {
        return None;
    }
    let c = s[b];
    if c == 0x22 || c == 0x5C || c == 0x2F {
        acc.push(c);
        assert(final(acc)@ =~= old(acc)@ + seq![c]);
        Some(b + 1)
    } else if c == 0x62 {
        acc.push(8);
        assert(final(acc)@ =~= old(acc)@ + seq![8u8]);
        Some(b + 1)
    } else if c == 0x66 {
        acc.push(12);
        assert(final(acc)@ =~= old(acc)@ + seq![12u8]);
        Some(b + 1)
    } else if c == 0x6E {
        acc.push(10);
        assert(final(acc)@ =~= old(acc)@ + seq![10u8]);
        Some(b + 1)
    } else if c == 0x72 {
        acc.push(13);
        assert(final(acc)@ =~= old(acc)@ + seq![13u8]);
        Some(b + 1)
    } else if c == 0x74 {
        acc.push(9);
        assert(final(acc)@ =~= old(acc)@ + seq![9u8]);
        Some(b + 1)
    } else if c == 0x75 {
        match hex4_val(s, b + 1) {
            None => None,
            Some(hi) => {
                if 0xD800 <= hi && hi < 0xDC00 {
                    if s.len() - b >= 11 && s[b + 5] == 0x5C && s[b + 6] == 0x75 {
                        match hex4_val(s, b + 7) {
                            None => None,
                            Some(lo) => {
                                if 0xDC00 <= lo && lo < 0xE000 {
                                    let cp: u32 = 0x10000 + (hi - 0xD800) * 0x400 + (lo - 0xDC00);
                                    push_utf8(acc, cp);
                                    Some(b + 11)
                                } else {
                                    None
                                }
                            },
                        }
                    } else {
                        None
                    }
                } else if 0xDC00 <= hi && hi < 0xE000 {
                    None
                } else {
                    push_utf8(acc, hi);
                    Some(b + 5)
                }
            },
        }
    } else {
        None
    }
}

/// The index after the multi-byte UTF-8 sequence starting at `i`.
fn utf8_next(s: &[u8], i: usize) -> (r: Option<usize>)
    requires
        i < s@.len(),
        s@[i as int] >= 0x80,
    ensures
        match utf8_char_end(s@, i as int) {
            None => r is None,
            Some(j) => r == Some(j as usize) && i < j <= s@.len(),
        },
{
    let c = s[i];
    if 0xC2 <= c && c <= 0xDF {
        if s.len() - i >= 2 && is_cont_byte(s[i + 1]) {
            Some(i + 2)
        } else {
            None
        }
    } else if c == 0xE0 {
        if s.len() - i >= 3 && 0xA0 <= s[i + 1] && s[i + 1] <= 0xBF && is_cont_byte(s[i + 2]) {
            Some(i + 3)
        } else {
            None
        }
    } else if c == 0xED {
        if s.len() - i >= 3 && 0x80 <= s[i + 1] && s[i + 1] <= 0x9F && is_cont_byte(s[i + 2]) {
            Some(i + 3)
        } else {
            None
        }
    } else if 0xE1 <= c && c <= 0xEF {
        if s.len() - i >= 3 && is_cont_byte(s[i + 1]) && is_cont_byte(s[i + 2]) {
            Some(i + 3)
        } else {
            None
        }
    } else if c == 0xF0 {
        if s.len() - i >= 4 && 0x90 <= s[i + 1] && s[i + 1] <= 0xBF && is_cont_byte(s[i + 2])
            && is_cont_byte(s[i + 3]) {
            Some(i + 4)
        } else {
            None
        }
    } else if 0xF1 <= c && c <= 0xF3 {
        if s.len() - i >= 4 && is_cont_byte(s[i + 1]) && is_cont_byte(s[i + 2]) && is_cont_byte(
            s[i + 3],
        ) {
            Some(i + 4)
        } else {
            None
        }
    } else if c == 0xF4 {
        if s.len() - i >= 4 && 0x80 <= s[i + 1] && s[i + 1] <= 0x8F && is_cont_byte(s[i + 2])
            && is_cont_byte(s[i + 3]) {
            Some(i + 4)
        } else {
            None
        }
    } else {
        None
    }
}

/// Decode a string whose opening quote stands just before `start`: the decoded
/// bytes and the index after the closing quote.
fn parse_string_body(s: &[u8], start: usize) -> (r: Option<(Vec<u8>, usize)>)
    requires
        start <= s@.len(),
    ensures
        match r {
            None => string_body(s@, start as int, Seq::empty()) is None,
            Some(p) => string_body(s@, start as int, Seq::empty()) == Some((p.0@, p.1 as int))
                && start < p.1 <= s@.len(),
        },
{
    let mut i = start;
    let mut acc: Vec<u8> = Vec::new();
    loop
        invariant
            start <= i <= s@.len(),
            string_body(s@, start as int, Seq::empty()) == string_body(s@, i as int, acc@),
        decreases s@.len() - i,
    {
        if i >= s.len() {
            return None;
        }
        let c = s[i];
        if c == 0x22 {
            return Some((acc, i + 1));
        } else if c == 0x5C {
            match unescape(s, i + 1, &mut acc) {
                None => {
                    return None;
                },
                Some(j) => {
                    i = j;
                },
            }
        } else if c < 0x20 {
            return None;
        } else if c < 0x80 {
            acc.push(c);
            i = i + 1;
        } else {
            match utf8_next(s, i) {
                None => {
                    return None;
                },
                Some(j) => {
                    let ghost acc0 = acc@;
                    let mut k = i;
                    while k < j
                        invariant
                            i <= k <= j <= s@.len(),
                            acc@ == acc0 + s@.subrange(i as int, k as int),
                        decreases j - k,
                    {
                        acc.push(s[k]);
                        proof {
                            assert(acc@ =~= acc0 + s@.subrange(i as int, k + 1 as int));
                        }
                        k = k + 1;
                    }
                    i = j;
                },
            }
        }
    }
}

/// Advance past decimal digits.
fn digits_run(s: &[u8], i: usize) -> (r: usize)
    requires
        i <= s@.len(),
    ensures
        r == digits_end(s@, i as int),
        i <= r <= s@.len(),
{
    let mut j = i;
    while j < s.len() && is_digit_byte(s[j])
        invariant
            i <= j <= s@.len(),
            digits_end(s@, i as int) == digits_end(s@, j as int),
        decreases s@.len() - j,
    {
        j = j + 1;
    }
    j
}

/// Advance past the JSON number starting at `i`.
fn number_run(s: &[u8], i: usize) -> (r: Option<usize>)
    requires
        i <= s@.len(),
    ensures
        match number_end(s@, i as int) {
            None => r is None,
            Some(j) => r == Some(j as usize) && i < j <= s@.len(),
        },
{
    let p = if i < s.len() && s[i] == 0x2D {
        i + 1
    } else {
        i
    };
    if p < s.len() && is_digit_byte(s[p]) {
        let q = if s[p] == 0x30 {
            p + 1
        } else {
            digits_run(s, p)
        };
        proof {
            if s@[p as int] != 0x30 {
                lemma_digits_end_bounds(s@, p + 1 as int);
            }
        }
        let t_found: bool;
        let t_val: usize;
        if q < s.len() && s[q] == 0x2E {
            if q + 1 < s.len() && is_digit_byte(s[q + 1]) {
                t_found = true;
                t_val = digits_run(s, q + 1);
            } else {
                t_found = false;
                t_val = 0;
            }
        } else {
            t_found = true;
            t_val = q;
        }
        if !t_found {
            return None;
        }
        let u = t_val;
        if u < s.len() && (s[u] == 0x65 || s[u] == 0x45) {
            let v = if u + 1 < s.len() && (s[u + 1] == 0x2B || s[u + 1] == 0x2D) {
                u + 2
            } else {
                u + 1
            };
            if v < s.len() && is_digit_byte(s[v]) {
                proof {
                    lemma_digits_end_bounds(s@, v + 1 as int);
                }
                Some(digits_run(s, v))
            } else {
                None
            }
        } else {
            Some(u)
        }
    } else {
        None
    }
}

/// Advance past the literal `true`, `false` or `null` starting at `i`.
fn lit_run(s: &[u8], i: usize) -> (r: Option<usize>)
    requires
        i <= s@.len(),
    ensures
        match lit_end(s@, i as int) {
            None => r is None,
            Some(j) => r == Some(j as usize) && i < j <= s@.len(),
        },
{
    if i >= s.len() {
        return None;
    }
    let c = s[i];
    if c == 0x74 {
        if s.len() - i >= 4 && s[i + 1] == 0x72 && s[i + 2] == 0x75 && s[i + 3] == 0x65 {
            Some(i + 4)
        } else {
            None
        }
    } else if c == 0x66 {
        if s.len() - i >= 5 && s[i + 1] == 0x61 && s[i + 2] == 0x6C && s[i + 3] == 0x73 && s[i + 4]
            == 0x65 {
            Some(i + 5)
        } else {
            None
        }
    } else if c == 0x6E {
        if s.len() - i >= 4 && s[i + 1] == 0x75 && s[i + 2] == 0x6C && s[i + 3] == 0x6C {
            Some(i + 4)
        } else {
            None
        }
    } else {
        None
    }
}

/// Advance past the JSON value starting at `i`.
fn skip_value_at(s: &[u8], i: usize) -> (r: Option<usize>)
    requires
        i <= s@.len(),
    ensures
        match skip_value(s@, i as int) {
            None => r is None,
            Some(j) => r == Some(j as usize) && i < j <= s@.len(),
        },
    decreases s@.len() - i, 1int,
{
    if i >= s.len() {
        return None;
    }
    let c = s[i];
    if c == 0x22 {
        match parse_string_body(s, i + 1) {
            None => None,
            Some(p) => Some(p.1),
        }
    } else if c == 0x7B {
        object_tail_at(s, i + 1)
    } else if c == 0x5B {
        array_tail_at(s, i + 1)
    } else if c == 0x2D || is_digit_byte(c) {
        number_run(s, i)
    } else {
        lit_run(s, i)
    }
}

/// Advance past the rest of an object whose `{` stands just before `i`.
fn object_tail_at(s: &[u8], i: usize) -> (r: Option<usize>)
    requires
        i <= s@.len(),
    ensures
        match object_tail(s@, i as int) {
            None => r is None,
            Some(j) => r == Some(j as usize) && i < j <= s@.len(),
        },
    decreases s@.len() - i, 2int,
{
    let p = ws_end(s, i);
    if p < s.len() {
        if s[p] == 0x7D {
            Some(p + 1)
        } else {
            match member_end_at(s, p) {
                None => None,
                Some(j) => object_rest_at(s, j),
            }
        }
    } else {
        None
    }
}

/// Advance past one member (key, colon, value) starting at the key's quote.
fn member_end_at(s: &[u8], i: usize) -> (r: Option<usize>)
    requires
        i <= s@.len(),
    ensures
        match member_end(s@, i as int) {
            None => r is None,
            Some(j) => r == Some(j as usize) && i < j <= s@.len(),
        },
    decreases s@.len() - i, 0int,
{
    if i >= s.len() || s[i] != 0x22 {
        return None;
    }
    match parse_string_body(s, i + 1) {
        None => None,
        Some(kj) => {
            let p = ws_end(s, kj.1);
            if p < s.len() && s[p] == 0x3A {
                let q = ws_end(s, p + 1);
                skip_value_at(s, q)
            } else {
                None
            }
        },
    }
}

/// Advance past the rest of an object, standing just after a member's value.
fn object_rest_at(s: &[u8], i: usize) -> (r: Option<usize>)
    requires
        i <= s@.len(),
    ensures
        match object_rest(s@, i as int) {
            None => r is None,
            Some(j) => r == Some(j as usize) && i < j <= s@.len(),
        },
    decreases s@.len() - i, 0int,
{
    let p = ws_end(s, i);
    if p < s.len() {
        if s[p] == 0x7D {
            Some(p + 1)
        } else if s[p] == 0x2C {
            let q = ws_end(s, p + 1);
            match member_end_at(s, q) {
                None => None,
                Some(j) => object_rest_at(s, j),
            }
        } else {
            None
        }
    } else {
        None
    }
}

/// Advance past the rest of an array whose `[` stands just before `i`.
fn array_tail_at(s: &[u8], i: usize) -> (r: Option<usize>)
    requires
        i <= s@.len(),
    ensures
        match array_tail(s@, i as int) {
            None => r is None,
            Some(j) => r == Some(j as usize) && i < j <= s@.len(),
        },
    decreases s@.len() - i, 2int,
{
    let p = ws_end(s, i);
    if p < s.len() {
        if s[p] == 0x5D {
            Some(p + 1)
        } else {
            match skip_value_at(s, p) {
                None => None,
                Some(j) => array_rest_at(s, j),
            }
        }
    } else {
        None
    }
}

/// Advance past the rest of an array, standing just after an element.
fn array_rest_at(s: &[u8], i: usize) -> (r: Option<usize>)
    requires
        i <= s@.len(),
    ensures
        match array_rest(s@, i as int) {
            None => r is None,
            Some(j) => r == Some(j as usize) && i < j <= s@.len(),
        },
    decreases s@.len() - i, 0int,
{
    let p = ws_end(s, i);
    if p < s.len() {
        if s[p] == 0x5D {
            Some(p + 1)
        } else if s[p] == 0x2C {
            let q = ws_end(s, p + 1);
            match skip_value_at(s, q) {
                None => None,
                Some(j) => array_rest_at(s, j),
            }
        } else {
            None
        }
    } else {
        None
    }
}

/// Byte-for-byte equality of two slices.
pub fn bytes_eq(a: &[u8], b: &[u8]) -> (r: bool)
    ensures
        r == (a@ == b@),
{
    if a.len() != b.len() {
        return false;
    }
    let mut i: usize = 0;
    while i < a.len()
        invariant
            i <= a@.len(),
            a@.len() == b@.len(),
            forall|k: int| 0 <= k < i ==> a@[k] == b@[k],
        decreases a@.len() - i,
    {
        if a[i] != b[i] {
            return false;
        }
        i = i + 1;
    }
    proof {
        assert(a@ =~= b@);
    }
    true
}

/// The key `device_id`, as bytes.
fn device_key_bytes() -> (r: Vec<u8>)
    ensures
        r@ == device_key(),
{
    let mut v: Vec<u8> = Vec::new();
    v.push(0x64);
    v.push(0x65);
    v.push(0x76);
    v.push(0x69);
    v.push(0x63);
    v.push(0x65);
    v.push(0x5F);
    v.push(0x69);
    v.push(0x64);
    proof {
        assert(v@ =~= device_key());
    }
    v
}

/// The key `helper_psk`, as bytes.
fn psk_key_bytes() -> (r: Vec<u8>)
    ensures
        r@ == psk_key(),
{
    let mut v: Vec<u8> = Vec::new();
    v.push(0x68);
    v.push(0x65);
    v.push(0x6C);
    v.push(0x70);
    v.push(0x65);
    v.push(0x72);
    v.push(0x5F);
    v.push(0x70);
    v.push(0x73);
    v.push(0x6B);
    proof {
        assert(v@ =~= psk_key());
    }
    v
}

spec fn opt_bytes(o: Option<Vec<u8>>) -> Option<Seq<u8>> {
    match o {
        None => None,
        Some(v) => Some(v@),
    }
}

/// Parse the members of the top-level object, starting at a key's quote.
fn parse_members(s: &[u8], start: usize) -> (r: Option<(Vec<u8>, Vec<u8>, usize)>)
    requires
        start <= s@.len(),
    ensures
        match members(s@, start as int, None, None) {
            None => r is None,
            Some(dkj) => r matches Some(t) && t.0@ == dkj.0 && t.1@ == dkj.1 && t.2 == dkj.2
                && start < dkj.2 <= s@.len(),
        },
{
    let dk = device_key_bytes();
    let pk = psk_key_bytes();
    let mut i = start;
    let mut dev: Option<Vec<u8>> = None;
    let mut psk: Option<Vec<u8>> = None;
    loop
        invariant
            start <= i <= s@.len(),
            dk@ == device_key(),
            pk@ == psk_key(),
            members(s@, start as int, None, None) == members(
                s@,
                i as int,
                opt_bytes(dev),
                opt_bytes(psk),
            ),
        decreases s@.len() - i,
    {
        if i >= s.len() || s[i] != 0x22 {
            return None;
        }
        match parse_string_body(s, i + 1) {
            None => {
                return None;
            },
            Some(kj) => {
                let key = kj.0;
                let p = ws_end(s, kj.1);
                if !(p < s.len() && s[p] == 0x3A) {
                    return None;
                }
                let q = ws_end(s, p + 1);
                let is_dev = bytes_eq(key.as_slice(), dk.as_slice());
                let is_psk = bytes_eq(key.as_slice(), pk.as_slice());
                let after: usize;
                if is_dev || is_psk {
                    if !(q < s.len() && s[q] == 0x22) {
                        return None;
                    }
                    match parse_string_body(s, q + 1) {
                        None => {
                            return None;
                        },
                        Some(vr) => {
                            if is_dev {
                                if dev.is_some() {
                                    return None;
                                }
                                dev = Some(vr.0);
                            } else {
                                if psk.is_some() {
                                    return None;
                                }
                                psk = Some(vr.0);
                            }
                            after = vr.1;
                        },
                    }
                } else {
                    match skip_value_at(s, q) {
                        None => {
                            return None;
                        },
                        Some(j) => {
                            after = j;
                        },
                    }
                }
                let p2 = ws_end(s, after);
                if p2 >= s.len() {
                    return None;
                }
                if s[p2] == 0x7D {
                    match (dev, psk) {
                        (Some(d), Some(k)) => {
                            return Some((d, k, p2 + 1));
                        },
                        _ => {
                            return None;
                        },
                    }
                } else if s[p2] == 0x2C {
                    let q2 = ws_end(s, p2 + 1);
                    i = q2;
                } else {
                    return None;
                }
            },
        }
    }
}

/// Parse the whole inbound body: exactly one JSON object surrounded by
/// nothing but whitespace, holding string members `device_id` and
/// `helper_psk`. Returns their decoded UTF-8 bytes.
pub fn parse_join_request(body: &[u8]) -> (r: Option<(Vec<u8>, Vec<u8>)>)
    ensures
        match spec_parse_join(body@) {
            None => r is None,
            Some(dk) => r matches Some(t) && t.0@ == dk.0 && t.1@ == dk.1,
        },
{
    let i = ws_end(body, 0);
    if !(i < body.len() && body[i] == 0x7B) {
        return None;
    }
    let p = ws_end(body, i + 1);
    match parse_members(body, p) {
        None => None,
        Some(t) => {
            let e = ws_end(body, t.2);
            if e == body.len() {
                Some((t.0, t.1))
            } else {
                None
            }
        },
    }
}

} // verus!
