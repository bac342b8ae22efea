//! Parsing response bodies: a recursive-descent reader for the JSON fragment
//! of `crate::json`. The whole grammar is first written down as spec
//! functions (`sp_json` and its helpers); the executable parser returns
//! exactly what those functions describe. Numbers are limited to integers of
//! at most eighteen digits (all the protocol carries is `status` and cookie
//! `expiry`); anything else in number position makes the surrounding
//! document unreadable, which the protocol treats as a failure.

use vstd::prelude::*;

use crate::json::JVal;
use crate::json::JsonValue;
use crate::json::jv;
use crate::json::jv_seq;
use crate::json::jv_fields;
use crate::json::lemma_jv_seq_push;
use crate::json::lemma_jv_fields_push;

verus! {

broadcast use vstd::utf8::char_is_scalar;

/// JSON whitespace.
pub open spec fn is_ws(c: char) -> bool {
    c == ' ' || c == '\n' || c == '\r' || c == '\t'
}

/// The first position at or after `i` that does not hold whitespace.
pub open spec fn ws_end(s: Seq<char>, i: int) -> int
    decreases s.len() - i,
{
    if 0 <= i < s.len() && is_ws(s[i]) {
        ws_end(s, i + 1)
    } else {
        i
    }
}

/// A decimal digit.
pub open spec fn is_digit(c: char) -> bool {
    48 <= c as u32 <= 57
}

pub open spec fn digit_val(c: char) -> int {
    (c as u32) - 48
}

/// The first position at or after `i` that does not hold a digit.
pub open spec fn digits_end(s: Seq<char>, i: int) -> int
    decreases s.len() - i,
{
    if 0 <= i < s.len() && is_digit(s[i]) {
        digits_end(s, i + 1)
    } else {
        i
    }
}

/// The value of the digit run `s[i..j)`.
pub open spec fn digits_val(s: Seq<char>, i: int, j: int) -> int
    decreases j - i,
{
    if j <= i {
        0
    } else {
        digits_val(s, i, j - 1) * 10 + digit_val(s[j - 1])
    }
}

pub open spec fn pow10(n: int) -> int
    decreases n,
{
    if n <= 0 {
        1
    } else {
        10 * pow10(n - 1)
    }
}

pub proof fn lemma_pow10_18()
    ensures
        pow10(18) == 1000000000000000000,
{
    reveal_with_fuel(pow10, 20);
}

/// An integer literal at `i`: an optional minus sign and one to eighteen
/// digits. Longer runs are rejected.
pub open spec fn sp_int(s: Seq<char>, i: int) -> Option<(int, int)> {
    let d0 = if 0 <= i < s.len() && s[i] == '-' {
        i + 1
    } else {
        i
    };
    let e = digits_end(s, d0);
    if e == d0 || e - d0 > 18 {
        None
    } else if 0 <= i < s.len() && s[i] == '-' {
        Some((-digits_val(s, d0, e), e))
    } else {
        Some((digits_val(s, d0, e), e))
    }
}

/// A hexadecimal digit's value, or a negative sentinel for other characters.
pub open spec fn hex_val(c: char) -> int {
    if 48 <= c as u32 <= 57 {
        (c as u32) - 48
    } else if 97 <= c as u32 <= 102 {
        (c as u32) - 87
    } else if 65 <= c as u32 <= 70 {
        (c as u32) - 55
    } else {
        -1
    }
}

/// A unicode scalar value: what one `\u` escape may denote.
pub open spec fn valid_scalar(code: int) -> bool {
    (0 <= code < 0xD800) || (0xE000 <= code <= 0x10FFFF)
}

/// The scalar value of a character.
pub open spec fn code_of(c: char) -> int {
    (c as u32) as int
}

/// The character with scalar value `code`.
pub open spec fn char_of(code: int) -> char {
    choose|c: char| #[trigger] code_of(c) == code
}

/// The character denoted by a short escape, if the letter is one.
pub open spec fn esc_short(c: char) -> Option<char> {
    if c == '"' {
        Some('"')
    } else if c == '\\' {
        Some('\\')
    } else if c == '/' {
        Some('/')
    } else if c == 'b' {
        Some('\u{0008}')
    } else if c == 'f' {
        Some('\u{000c}')
    } else if c == 'n' {
        Some('\n')
    } else if c == 'r' {
        Some('\r')
    } else if c == 't' {
        Some('\t')
    } else {
        None
    }
}

/// A string body starting at `i` (just after the opening quote): the
/// characters read and the position just after the closing quote. Raw
/// control characters and unknown or lone escapes make it unreadable.
pub open spec fn sp_str(s: Seq<char>, i: int) -> Option<(Seq<char>, int)>
    decreases s.len() - i,
{
    if i < 0 || i >= s.len() {
        None
    } else if s[i] == '"' {
        Some((Seq::empty(), i + 1))
    } else if s[i] == '\\' {
        if i + 2 > s.len() {
            None
        } else if s[i + 1] == 'u' {
            if i + 6 <= s.len() && hex_val(s[i + 2]) >= 0 && hex_val(s[i + 3]) >= 0 && hex_val(
                s[i + 4],
            ) >= 0 && hex_val(s[i + 5]) >= 0 {
                let code = hex_val(s[i + 2]) * 4096 + hex_val(s[i + 3]) * 256 + hex_val(s[i + 4])
                    * 16 + hex_val(s[i + 5]);
                if valid_scalar(code) {
                    match sp_str(s, i + 6) {
                        Some(p) => Some((seq![char_of(code)] + p.0, p.1)),
                        None => None,
                    }
                } else {
                    None
                }
            } else {
                None
            }
        } else {
            match esc_short(s[i + 1]) {
                Some(c) => match sp_str(s, i + 2) {
                    Some(p) => Some((seq![c] + p.0, p.1)),
                    None => None,
                },
                None => None,
            }
        }
    } else if (s[i] as u32) < 32 {
        None
    } else {
        match sp_str(s, i + 1) {
            Some(p) => Some((seq![s[i]] + p.0, p.1)),
            None => None,
        }
    }
}

pub proof fn lemma_sp_str_end(s: Seq<char>, i: int)
    requires
        0 <= i <= s.len(),
    ensures
        sp_str(s, i) matches Some(p) ==> i < p.1 <= s.len(),
    decreases s.len() - i,
{
    if i < s.len() {
        if s[i] == '\\' {
            if i + 2 <= s.len() && s[i + 1] == 'u' {
                if i + 6 <= s.len() {
                    lemma_sp_str_end(s, i + 6);
                }
            } else if i + 2 <= s.len() {
                lemma_sp_str_end(s, i + 2);
            }
        } else if s[i] != '"' {
            lemma_sp_str_end(s, i + 1);
        }
    }
}

/// A JSON value starting exactly at `i`: the value read and the position
/// just after it.
pub open spec fn sp_value(s: Seq<char>, i: int) -> Option<(JVal, int)>
    decreases s.len() - i, 2int,
{
    if i < 0 || i >= s.len() {
        None
    } else if s[i] == '"' {
        match sp_str(s, i + 1) {
            Some(p) => Some((JVal::Str(p.0), p.1)),
            None => None,
        }
    } else if s[i] == 't' {
        if i + 4 <= s.len() && s[i + 1] == 'r' && s[i + 2] == 'u' && s[i + 3] == 'e' {
            Some((JVal::Bool(true), i + 4))
        } else {
            None
        }
    } else if s[i] == 'f' {
        if i + 5 <= s.len() && s[i + 1] == 'a' && s[i + 2] == 'l' && s[i + 3] == 's' && s[i + 4]
            == 'e' {
            Some((JVal::Bool(false), i + 5))
        } else {
            None
        }
    } else if s[i] == 'n' {
        if i + 4 <= s.len() && s[i + 1] == 'u' && s[i + 2] == 'l' && s[i + 3] == 'l' {
            Some((JVal::Null, i + 4))
        } else {
            None
        }
    } else if s[i] == '-' || is_digit(s[i]) {
        match sp_int(s, i) {
            Some(p) => Some((JVal::Int(p.0), p.1)),
            None => None,
        }
    } else if s[i] == '[' {
        let j = ws_end(s, i + 1);
        if j < s.len() && s[j] == ']' {
            Some((JVal::Arr(Seq::empty()), j + 1))
        } else if i < j <= s.len() {
            match sp_elems(s, j) {
                Some(p) => Some((JVal::Arr(p.0), p.1)),
                None => None,
            }
        } else {
            None
        }
    } else if s[i] == '{' {
        let j = ws_end(s, i + 1);
        if j < s.len() && s[j] == '}' {
            Some((JVal::Obj(Seq::empty()), j + 1))
        } else if i < j <= s.len() {
            match sp_members(s, j) {
                Some(p) => Some((JVal::Obj(p.0), p.1)),
                None => None,
            }
        } else {
            None
        }
    } else {
        None
    }
}

/// One or more comma-separated array elements starting exactly at `i`, up to
/// and including the closing bracket.
pub open spec fn sp_elems(s: Seq<char>, i: int) -> Option<(Seq<JVal>, int)>
    decreases s.len() - i, 3int,
{
    match sp_value(s, i) {
        Some(p) => {
            let k = ws_end(s, p.1);
            if i < p.1 <= s.len() && p.1 <= k < s.len() {
                if s[k] == ']' {
                    Some((seq![p.0], k + 1))
                } else if s[k] == ',' {
                    let n = ws_end(s, k + 1);
                    if k < n <= s.len() {
                        match sp_elems(s, n) {
                            Some(q) => Some((seq![p.0] + q.0, q.1)),
                            None => None,
                        }
                    } else {
                        None
                    }
                } else {
                    None
                }
            } else {
                None
            }
        },
        None => None,
    }
}

/// One or more comma-separated object members starting exactly at `i`, up to
/// and including the closing brace.
pub open spec fn sp_members(s: Seq<char>, i: int) -> Option<(Seq<(Seq<char>, JVal)>, int)>
    decreases s.len() - i, 3int,
{
    if 0 <= i < s.len() && s[i] == '"' {
        match sp_str(s, i + 1) {
            Some(kp) => {
                let c = ws_end(s, kp.1);
                if i < kp.1 <= s.len() && kp.1 <= c < s.len() && s[c] == ':' {
                    let vstart = ws_end(s, c + 1);
                    if c < vstart <= s.len() {
                        match sp_value(s, vstart) {
                            Some(p) => {
                                let k = ws_end(s, p.1);
                                if vstart < p.1 <= s.len() && p.1 <= k < s.len() {
                                    if s[k] == '}' {
                                        Some((seq![(kp.0, p.0)], k + 1))
                                    } else if s[k] == ',' {
                                        let n = ws_end(s, k + 1);
                                        if k < n <= s.len() {
                                            match sp_members(s, n) {
                                                Some(q) => Some((seq![(kp.0, p.0)] + q.0, q.1)),
                                                None => None,
                                            }
                                        } else {
                                            None
                                        }
                                    } else {
                                        None
                                    }
                                } else {
                                    None
                                }
                            },
                            None => None,
                        }
                    } else {
                        None
                    }
                } else {
                    None
                }
            },
            None => None,
        }
    } else {
        None
    }
}

/// A whole JSON document: one value, surrounded only by whitespace.
pub open spec fn sp_json(s: Seq<char>) -> Option<JVal> {
    let i = ws_end(s, 0);
    match sp_value(s, i) {
        Some(p) => {
            if 0 <= p.1 <= s.len() && ws_end(s, p.1) == s.len() {
                Some(p.0)
            } else {
                None
            }
        },
        None => None,
    }
}

/// Relies on `char::from_u32`: it returns `Some` exactly for unicode scalar
/// values (below the surrogate range, or above it and at most 0x10FFFF), and
/// the returned character has exactly the given scalar value.
#[verifier::external_body]
fn char_from_u32(n: u32) -> (r: Option<char>)
    ensures
        r is Some <==> valid_scalar(n as int),
        r matches Some(c) ==> c as u32 == n,
{
    char::from_u32(n)
}

/// The first position at or after `i` without whitespace, executably.
#[verifier::loop_isolation(false)]
fn skip_ws(cs: &Vec<char>, i: usize) -> (r: usize)
    requires
        i <= cs@.len(),
    ensures
        r as int == ws_end(cs@, i as int),
        i <= r <= cs@.len(),
{
    let mut cur: usize = i;
    loop
        invariant
            i <= cur <= cs@.len(),
            ws_end(cs@, i as int) == ws_end(cs@, cur as int),
        decreases cs@.len() - cur,
    {
        if cur < cs.len() {
            let c = cs[cur];
            if c == ' ' || c == '\n' || c == '\r' || c == '\t' {
                cur = cur + 1;
            } else {
                return cur;
            }
        } else {
            return cur;
        }
    }
}

pub proof fn lemma_pow10_mono(a: int, b: int)
    requires
        0 <= a <= b,
    ensures
        pow10(a) <= pow10(b),
        pow10(a) >= 1,
    decreases b,
{
    if b > 0 {
        if a == b {
            lemma_pow10_mono(a - 1, b - 1);
        } else {
            lemma_pow10_mono(a, b - 1);
        }
    }
}

/// An integer literal at `i`, executably.
#[verifier::loop_isolation(false)]
fn parse_int(cs: &Vec<char>, i: usize) -> (r: Option<(i64, usize)>)
    requires
        i <= cs@.len(),
    ensures
        match r {
            Some(p) => sp_int(cs@, i as int) == Some((p.0 as int, p.1 as int)) && i < p.1
                <= cs@.len(),
            None => sp_int(cs@, i as int) is None,
        },
{
    let neg: bool = i < cs.len() && cs[i] == '-';
    let d0: usize = if neg {
        i + 1
    } else {
        i
    };
    let mut e: usize = d0;
    loop
        invariant
            d0 <= e <= cs@.len(),
            digits_end(cs@, d0 as int) == digits_end(cs@, e as int),
            forall|k: int| d0 <= k < e ==> is_digit(cs@[k]),
        decreases cs@.len() - e,
    {
        if e < cs.len() {
            let c = cs[e];
            if (c as u32) >= 48 && (c as u32) <= 57 {
                e = e + 1;
            } else {
                break;
            }
        } else {
            break;
        }
    }
    assert(digits_end(cs@, d0 as int) == e as int);
    if e == d0 || e - d0 > 18 {
        return None;
    }
    proof {
        lemma_pow10_18();
    }
    let mut acc: u64 = 0;
    let mut k: usize = d0;
    while k < e
        invariant
            d0 <= k <= e,
            acc as int == digits_val(cs@, d0 as int, k as int),
            (acc as int) < pow10(k - d0),
        decreases e - k,
    {
        let c = cs[k];
        let d: u64 = ((c as u32) - 48) as u64;
        proof {
            lemma_pow10_mono(k - d0, 17);
            assert(acc as int * 10 + 10 <= pow10(k - d0) * 10) by (nonlinear_arith)
                requires
                    (acc as int) < pow10(k - d0),
            ;
            assert(pow10(k - d0) * 10 == pow10(k - d0 + 1));
            assert(acc as int * 10 >= 0) by (nonlinear_arith)
                requires
                    (acc as int) >= 0,
            ;
        }
        acc = acc * 10 + d;
        k = k + 1;
    }
    proof {
        lemma_pow10_mono(e - d0, 18);
    }
    if neg {
        let v: i64 = -(acc as i64);
        Some((v, e))
    } else {
        Some((acc as i64, e))
    }
}

/// The value of a hexadecimal digit character, executably.
fn hex_val_x(c: char) -> (r: i32)
    ensures
        r as int == hex_val(c),
{
    let n = c as u32;
    if n >= 48 && n <= 57 {
        (n - 48) as i32
    } else if n >= 97 && n <= 102 {
        (n - 87) as i32
    } else if n >= 65 && n <= 70 {
        (n - 55) as i32
    } else {
        -1
    }
}

/// A string body starting at `i` (just after the opening quote), executably.
#[verifier::loop_isolation(false)]
fn parse_string(cs: &Vec<char>, i: usize) -> (r: Option<(String, usize)>)
    requires
        i <= cs@.len(),
    ensures
        match r {
            Some(p) => sp_str(cs@, i as int) == Some((p.0@, p.1 as int)) && i < p.1 <= cs@.len(),
            None => sp_str(cs@, i as int) is None,
        },
{
    let mut acc: Vec<char> = Vec::new();
    let mut cur: usize = i;
    loop
        invariant
            i <= cur <= cs@.len(),
            (match sp_str(cs@, cur as int) {
                Some(p) => sp_str(cs@, i as int) == Some((acc@ + p.0, p.1)),
                None => sp_str(cs@, i as int) is None,
            }),
        decreases cs@.len() - cur,
    {
        if cur >= cs.len() {
            return None;
        }
        let c = cs[cur];
        if c == '"' {
            assert(acc@ + Seq::<char>::empty() =~= acc@);
            proof {
                lemma_sp_str_end(cs@, i as int);
            }
            let text = crate::json::chars_to_string(&acc);
            return Some((text, cur + 1));
        } else if c == '\\' {
            if cur + 1 >= cs.len() {
                return None;
            }
            let e = cs[cur + 1];
            if e == 'u' {
                if cs.len() - cur < 6 {
                    return None;
                }
                let h0 = hex_val_x(cs[cur + 2]);
                let h1 = hex_val_x(cs[cur + 3]);
                let h2 = hex_val_x(cs[cur + 4]);
                let h3 = hex_val_x(cs[cur + 5]);
                if h0 < 0 || h1 < 0 || h2 < 0 || h3 < 0 {
                    return None;
                }
                let code: u32 = (h0 as u32) * 4096 + (h1 as u32) * 256 + (h2 as u32) * 16 + (
                h3 as u32);
                match char_from_u32(code) {
                    Some(ch) => {
                        proof {
                            assert(code_of(ch) == code as int);
                            assert(code_of(char_of(code as int)) == code as int);
                            vstd::utf8::char_u32_cast(ch, ch as u32);
                            vstd::utf8::char_u32_cast(char_of(code as int), char_of(code as int) as u32);
                            assert(char_of(code as int) == ch);
                        }
                        let ghost prev = acc@;
                        acc.push(ch);
                        assert(acc@ =~= prev + seq![ch]);
                        proof {
                            match sp_str(cs@, cur + 6 as int) {
                                Some(p) => {
                                    assert(prev + (seq![ch] + p.0) =~= acc@ + p.0);
                                },
                                None => {},
                            }
                        }
                        cur = cur + 6;
                    },
                    None => {
                        return None;
                    },
                }
            } else {
                let m: Option<char> = if e == '"' {
                    Some('"')
                } else if e == '\\' {
                    Some('\\')
                } else if e == '/' {
                    Some('/')
                } else if e == 'b' {
                    Some('\u{0008}')
                } else if e == 'f' {
                    Some('\u{000c}')
                } else if e == 'n' {
                    Some('\n')
                } else if e == 'r' {
                    Some('\r')
                } else if e == 't' {
                    Some('\t')
                } else {
                    None
                };
                match m {
                    Some(c2) => {
                        assert(esc_short(cs@[cur + 1 as int]) == Some(c2));
                        let ghost prev = acc@;
                        acc.push(c2);
                        assert(acc@ =~= prev + seq![c2]);
                        proof {
                            match sp_str(cs@, cur + 2 as int) {
                                Some(p) => {
                                    assert(prev + (seq![c2] + p.0) =~= acc@ + p.0);
                                },
                                None => {},
                            }
                        }
                        cur = cur + 2;
                    },
                    None => {
                        assert(esc_short(cs@[cur + 1 as int]) is None);
                        return None;
                    },
                }
            }
        } else if (c as u32) < 32 {
            return None;
        } else {
            let ghost prev = acc@;
            acc.push(c);
            assert(acc@ =~= prev + seq![c]);
            proof {
                match sp_str(cs@, cur + 1 as int) {
                    Some(p) => {
                        assert(prev + (seq![c] + p.0) =~= acc@ + p.0);
                    },
                    None => {},
                }
            }
            cur = cur + 1;
        }
    }
}

/// A JSON value starting exactly at `i`, executably.
#[verifier::loop_isolation(false)]
fn parse_value(cs: &Vec<char>, i: usize) -> (r: Option<(JsonValue, usize)>)
    requires
        i <= cs@.len(),
    ensures
        match r {
            Some(p) => sp_value(cs@, i as int) == Some((jv(p.0), p.1 as int)) && i < p.1
                <= cs@.len(),
            None => sp_value(cs@, i as int) is None,
        },
    decreases cs@.len() - i,
{
    if i >= cs.len() {
        return None;
    }
    let c = cs[i];
    if c == '"' {
        match parse_string(cs, i + 1) {
            Some(sp) => Some((JsonValue::Str(sp.0), sp.1)),
            None => None,
        }
    } else if c == 't' {
        if cs.len() - i >= 4 && cs[i + 1] == 'r' && cs[i + 2] == 'u' && cs[i + 3] == 'e' {
            Some((JsonValue::Bool(true), i + 4))
        } else {
            None
        }
    } else if c == 'f' {
        if cs.len() - i >= 5 && cs[i + 1] == 'a' && cs[i + 2] == 'l' && cs[i + 3] == 's' && cs[i
            + 4] == 'e' {
            Some((JsonValue::Bool(false), i + 5))
        } else {
            None
        }
    } else if c == 'n' {
        if cs.len() - i >= 4 && cs[i + 1] == 'u' && cs[i + 2] == 'l' && cs[i + 3] == 'l' {
            Some((JsonValue::Null, i + 4))
        } else {
            None
        }
    } else if c == '-' || ((c as u32) >= 48 && (c as u32) <= 57) {
        match parse_int(cs, i) {
            Some(p) => Some((JsonValue::Int(p.0), p.1)),
            None => None,
        }
    } else if c == '[' {
        let j0 = skip_ws(cs, i + 1);
        if j0 < cs.len() && cs[j0] == ']' {
            let elems: Vec<JsonValue> = Vec::new();
            proof {
                assert(jv_seq(elems@, elems@.len() as int) =~= Seq::<JVal>::empty());
            }
            return Some((JsonValue::Arr(elems), j0 + 1));
        }
        let ghost start = j0 as int;
        let mut elems: Vec<JsonValue> = Vec::new();
        let mut cur: usize = j0;
        proof {
            match sp_elems(cs@, start) {
                Some(q) => {
                    assert(jv_seq(elems@, elems@.len() as int) + q.0 =~= q.0);
                },
                None => {},
            }
        }
        loop
            invariant
                i < cur <= cs@.len(),
                (match sp_elems(cs@, cur as int) {
                    Some(q) => sp_elems(cs@, start) == Some(
                        (jv_seq(elems@, elems@.len() as int) + q.0, q.1),
                    ),
                    None => sp_elems(cs@, start) is None,
                }),
            decreases cs@.len() - cur,
        {
            match parse_value(cs, cur) {
                None => {
                    return None;
                },
                Some(pv) => {
                    let k = skip_ws(cs, pv.1);
                    if k < cs.len() && cs[k] == ']' {
                        let ghost pre = elems@;
                        let v0 = pv.0;
                        elems.push(v0);
                        proof {
                            lemma_jv_seq_push(pre, v0);
                            assert(jv_seq(pre, pre.len() as int) + seq![jv(v0)] =~= jv_seq(
                                elems@,
                                elems@.len() as int,
                            ));
                        }
                        return Some((JsonValue::Arr(elems), k + 1));
                    } else if k < cs.len() && cs[k] == ',' {
                        let n2 = skip_ws(cs, k + 1);
                        let ghost pre = elems@;
                        let v0 = pv.0;
                        elems.push(v0);
                        proof {
                            lemma_jv_seq_push(pre, v0);
                            match sp_elems(cs@, n2 as int) {
                                Some(q) => {
                                    assert(jv_seq(pre, pre.len() as int) + (seq![jv(v0)] + q.0)
                                        =~= jv_seq(elems@, elems@.len() as int) + q.0);
                                },
                                None => {},
                            }
                        }
                        cur = n2;
                    } else {
                        return None;
                    }
                },
            }
        }
    } else if c == '{' {
        let j0 = skip_ws(cs, i + 1);
        if j0 < cs.len() && cs[j0] == '}' {
            let fields: Vec<(String, JsonValue)> = Vec::new();
            proof {
                assert(jv_fields(fields@, fields@.len() as int) =~= Seq::<(Seq<char>, JVal)>::empty());
            }
            return Some((JsonValue::Obj(fields), j0 + 1));
        }
        let ghost start = j0 as int;
        let mut fields: Vec<(String, JsonValue)> = Vec::new();
        let mut cur: usize = j0;
        proof {
            match sp_members(cs@, start) {
                Some(q) => {
                    assert(jv_fields(fields@, fields@.len() as int) + q.0 =~= q.0);
                },
                None => {},
            }
        }
        loop
            invariant
                i < cur <= cs@.len(),
                (match sp_members(cs@, cur as int) {
                    Some(q) => sp_members(cs@, start) == Some(
                        (jv_fields(fields@, fields@.len() as int) + q.0, q.1),
                    ),
                    None => sp_members(cs@, start) is None,
                }),
            decreases cs@.len() - cur,
        {
            if !(cur < cs.len() && cs[cur] == '"') {
                return None;
            }
            match parse_string(cs, cur + 1) {
                None => {
                    return None;
                },
                Some(kp) => {
                    let cpos = skip_ws(cs, kp.1);
                    if !(cpos < cs.len() && cs[cpos] == ':') {
                        return None;
                    }
                    let vstart = skip_ws(cs, cpos + 1);
                    match parse_value(cs, vstart) {
                        None => {
                            return None;
                        },
                        Some(pv) => {
                            let k = skip_ws(cs, pv.1);
                            if k < cs.len() && cs[k] == '}' {
                                let ghost pre = fields@;
                                let key = kp.0;
                                let v0 = pv.0;
                                proof {
                                    lemma_jv_fields_push(pre, key, v0);
                                }
                                fields.push((key, v0));
                                proof {
                                    assert(jv_fields(pre, pre.len() as int) + seq![(kp.0@, jv(v0))]
                                        =~= jv_fields(fields@, fields@.len() as int));
                                }
                                return Some((JsonValue::Obj(fields), k + 1));
                            } else if k < cs.len() && cs[k] == ',' {
                                let n2 = skip_ws(cs, k + 1);
                                let ghost pre = fields@;
                                let key = kp.0;
                                let v0 = pv.0;
                                proof {
                                    lemma_jv_fields_push(pre, key, v0);
                                }
                                fields.push((key, v0));
                                proof {
                                    match sp_members(cs@, n2 as int) {
                                        Some(q) => {
                                            assert(jv_fields(pre, pre.len() as int) + (seq![
                                                (kp.0@, jv(v0)),
                                            ] + q.0) =~= jv_fields(fields@, fields@.len() as int)
                                                + q.0);
                                        },
                                        None => {},
                                    }
                                }
                                cur = n2;
                            } else {
                                return None;
                            }
                        },
                    }
                },
            }
        }
    } else {
        None
    }
}

/// One whole JSON document, executably: exactly what `sp_json` describes.
pub fn parse_json(s: &str) -> (r: Option<JsonValue>)
    ensures
        match r {
            Some(v) => sp_json(s@) == Some(jv(v)),
            None => sp_json(s@) is None,
        },
{
    let cs = crate::json::str_to_chars(s);
    let i0 = skip_ws(&cs, 0);
    match parse_value(&cs, i0) {
        Some(p) => {
            let k = skip_ws(&cs, p.1);
            if k == cs.len() {
                Some(p.0)
            } else {
                None
            }
        },
        None => None,
    }
}

proof fn lemma_hex_char_val(d: int)
    requires
        0 <= d < 16,
    ensures
        hex_val(crate::json::hex_char(d)) == d,
{
}

proof fn lemma_esc_upto_left(s: Seq<char>, n: int)
    requires
        1 <= n <= s.len(),
    ensures
        crate::json::esc_upto(s, n) == crate::json::esc_char(s[0]) + crate::json::esc_upto(
            s.drop_first(),
            n - 1,
        ),
    decreases n,
{
    if n == 1 {
        assert(crate::json::esc_upto(s, 0) =~= Seq::<char>::empty());
        assert(crate::json::esc_upto(s.drop_first(), 0) =~= Seq::<char>::empty());
        assert(crate::json::esc_upto(s, 1) =~= crate::json::esc_char(s[0])
            + crate::json::esc_upto(s.drop_first(), 0));
    } else {
        lemma_esc_upto_left(s, n - 1);
        assert(s.drop_first()[n - 2] == s[n - 1]);
        assert((crate::json::esc_char(s[0]) + crate::json::esc_upto(s.drop_first(), n - 2))
            + crate::json::esc_char(s[n - 1]) =~= crate::json::esc_char(s[0])
            + crate::json::esc_upto(s.drop_first(), n - 1));
    }
}

/// How the parser reads back an escaped string body: wherever the text from
/// `i` on is the escaped form of `s`, a closing quote, and anything after,
/// the string read is exactly `s`, ending just past that quote.
#[verifier::rlimit(60)]
pub proof fn lemma_sp_str_inverts(full: Seq<char>, i: int, s: Seq<char>, tail: Seq<char>)
    requires
        0 <= i <= full.len(),
        full.subrange(i, full.len() as int) == crate::json::esc_upto(s, s.len() as int)
            + seq!['"'] + tail,
    ensures
        sp_str(full, i) == Some(
            (s, i + crate::json::esc_upto(s, s.len() as int).len() + 1),
        ),
    decreases s.len(),
{
    broadcast use vstd::utf8::char_u32_cast;

    let rest = full.subrange(i, full.len() as int);
    if s.len() == 0 {
        assert(s.len() as int == 0);
        assert(crate::json::esc_upto(s, 0) =~= Seq::<char>::empty());
        assert(crate::json::esc_upto(s, s.len() as int) == crate::json::esc_upto(s, 0));
        let e0 = crate::json::esc_upto(s, s.len() as int);
        assert(e0.len() == 0);
        assert((e0 + seq!['"']).len() == 1);
        assert((e0 + seq!['"'] + tail)[0] == '"');
        assert(rest[0] == '"');
        assert(rest.len() == full.len() - i);
        assert(rest.len() >= 1);
        assert(i < full.len());
        assert(full[i + 0] == rest[0]);
        assert(full[i] == '"');
        assert(s =~= Seq::<char>::empty());
    } else {
        let c = s[0];
        let s2 = s.drop_first();
        let e2 = crate::json::esc_upto(s2, s2.len() as int);
        lemma_esc_upto_left(s, s.len() as int);
        let ec = crate::json::esc_char(c);
        assert(rest =~= ec + (e2 + seq!['"'] + tail));
        assert forall|k: int| 0 <= k < ec.len() implies full[i + k] == ec[k] by {
            assert(rest[k] == full[i + k]);
            assert(rest[k] == (ec + (e2 + seq!['"'] + tail))[k]);
        }
        let step = ec.len();
        assert forall|m: int|
            0 <= m < full.len() - (i + step) implies full.subrange(
            i + step,
            full.len() as int,
        )[m] == (e2 + seq!['"'] + tail)[m] by {
            assert(full.subrange(i + step, full.len() as int)[m] == full[i + step + m]);
            assert(rest[step + m] == full[i + step + m]);
            assert(rest[step + m] == (ec + (e2 + seq!['"'] + tail))[step + m]);
        }
        assert(full.subrange(i + step, full.len() as int) =~= e2 + seq!['"'] + tail);
        lemma_sp_str_inverts(full, i + step, s2, tail);
        assert(seq![c] + s2 =~= s);
        if c == '"' || c == '\\' || c == '\n' || c == '\r' || c == '\t' {
            assert(full[i] == ec[0]);
            assert(full[i + 1] == ec[1]);
            assert(full[i] == '\\');
            assert(esc_short(full[i + 1]) == Some(c));
        } else if (c as u32) < 32 {
            let code = (c as u32) as int;
            assert(full[i] == ec[0]);
            assert(full[i + 1] == ec[1]);
            assert(full[i + 2] == ec[2]);
            assert(full[i + 3] == ec[3]);
            assert(full[i + 4] == ec[4]);
            assert(full[i + 5] == ec[5]);
            assert(full[i] == '\\' && full[i + 1] == 'u' && full[i + 2] == '0' && full[i + 3]
                == '0');
            lemma_hex_char_val(code / 16);
            lemma_hex_char_val(code % 16);
            assert(hex_val(full[i + 4]) == code / 16);
            assert(hex_val(full[i + 5]) == code % 16);
            let seen = hex_val(full[i + 2]) * 4096 + hex_val(full[i + 3]) * 256 + hex_val(
                full[i + 4],
            ) * 16 + hex_val(full[i + 5]);
            assert(seen == code);
            assert(valid_scalar(code));
            assert(code_of(c) == code);
            assert(code_of(char_of(code)) == code);
            vstd::utf8::char_u32_cast(c, c as u32);
            vstd::utf8::char_u32_cast(char_of(code), char_of(code) as u32);
            assert(c as u32 == char_of(code) as u32);
            assert(char_of(code) == c);
        } else {
            assert(full[i] == c);
            assert(full[i] != '"' && full[i] != '\\' && !((full[i] as u32) < 32));
        }
    }
}

} // verus!
