//! The JSON fragment that the GhostDriver protocol exchanges: values are
//! null, booleans, 64-bit integers, strings, arrays and objects (field order
//! kept, first binding of a key wins). `JVal` is the mathematical model,
//! `JsonValue` the executable tree, `jtext` the canonical text of a value,
//! and `to_text` the verified encoder that produces exactly that text.

use vstd::prelude::*;

verus! {

broadcast use vstd::utf8::char_is_scalar;

/// Mathematical model of a JSON value.
pub enum JVal {
    Null,
    Bool(bool),
    Int(int),
    Str(Seq<char>),
    Arr(Seq<JVal>),
    Obj(Seq<(Seq<char>, JVal)>),
}

/// Executable JSON value. Integers are confined to `i64`, which is all the
/// protocol uses (`status`, cookie `expiry`).
#[derive(Debug, PartialEq)]
pub enum JsonValue {
    Null,
    Bool(bool),
    Int(i64),
    Str(String),
    Arr(Vec<JsonValue>),
    Obj(Vec<(String, JsonValue)>),
}

/// The model of an executable JSON value.
pub open spec fn jv(v: JsonValue) -> JVal
    decreases v, 0int, 0int,
{
    match v {
        JsonValue::Null => JVal::Null,
        JsonValue::Bool(b) => JVal::Bool(b),
        JsonValue::Int(i) => JVal::Int(i as int),
        JsonValue::Str(s) => JVal::Str(s@),
        JsonValue::Arr(a) => JVal::Arr(jv_seq(a@, a@.len() as int)),
        JsonValue::Obj(fs) => JVal::Obj(jv_fields(fs@, fs@.len() as int)),
    }
}

/// Models of the first `n` elements of an array, in order.
pub open spec fn jv_seq(a: Seq<JsonValue>, n: int) -> Seq<JVal>
    decreases a, n, 0int,
    via jv_seq_dec
{
    if n <= 0 || n > a.len() {
        Seq::empty()
    } else {
        jv_seq(a, n - 1).push(jv(a[n - 1]))
    }
}

#[via_fn]
proof fn jv_seq_dec(a: Seq<JsonValue>, n: int) {
    if 0 < n <= a.len() {
        assert(decreases_to!(a, n, 0int => a[n - 1], 0int, 0int));
    }
}

/// Models of the first `n` fields of an object, in order.
pub open spec fn jv_fields(fs: Seq<(String, JsonValue)>, n: int) -> Seq<(Seq<char>, JVal)>
    decreases fs, n, 0int,
    via jv_fields_dec
{
    if n <= 0 || n > fs.len() {
        Seq::empty()
    } else {
        jv_fields(fs, n - 1).push((fs[n - 1].0@, jv(fs[n - 1].1)))
    }
}

#[via_fn]
proof fn jv_fields_dec(fs: Seq<(String, JsonValue)>, n: int) {
    if 0 < n <= fs.len() {
        assert(decreases_to!(fs => fs[n - 1]));
        assert(decreases_to!(fs, n, 0int => fs[n - 1].1, 0int, 0int));
    }
}

pub proof fn lemma_jv_seq(a: Seq<JsonValue>, n: int)
    requires
        0 <= n <= a.len(),
    ensures
        jv_seq(a, n).len() == n,
        forall|i: int| 0 <= i < n ==> jv_seq(a, n)[i] == jv(a[i]),
    decreases n,
{
    if n > 0 {
        lemma_jv_seq(a, n - 1);
    }
}

pub proof fn lemma_jv_fields(fs: Seq<(String, JsonValue)>, n: int)
    requires
        0 <= n <= fs.len(),
    ensures
        jv_fields(fs, n).len() == n,
        forall|i: int| 0 <= i < n ==> jv_fields(fs, n)[i] == (fs[i].0@, jv(fs[i].1)),
    decreases n,
{
    if n > 0 {
        lemma_jv_fields(fs, n - 1);
    }
}

pub proof fn lemma_jv_seq_push(a: Seq<JsonValue>, x: JsonValue)
    ensures
        jv_seq(a.push(x), (a.len() + 1) as int) == jv_seq(a, a.len() as int).push(jv(x)),
{
    lemma_jv_seq(a.push(x), a.len() as int);
    lemma_jv_seq(a, a.len() as int);
    assert(jv_seq(a.push(x), a.len() as int) =~= jv_seq(a, a.len() as int));
    assert(a.push(x)[a.len() as int] == x);
}

pub proof fn lemma_jv_fields_push(fs: Seq<(String, JsonValue)>, k: String, x: JsonValue)
    ensures
        jv_fields(fs.push((k, x)), (fs.len() + 1) as int) == jv_fields(fs, fs.len() as int).push(
            (k@, jv(x)),
        ),
{
    lemma_jv_fields(fs.push((k, x)), fs.len() as int);
    lemma_jv_fields(fs, fs.len() as int);
    assert(jv_fields(fs.push((k, x)), fs.len() as int) =~= jv_fields(fs, fs.len() as int));
    assert(fs.push((k, x))[fs.len() as int] == (k, x));
}

/// The decimal digit character for `d`.
pub open spec fn digit_char(d: int) -> char {
    if d == 0 { '0' }
    else if d == 1 { '1' }
    else if d == 2 { '2' }
    else if d == 3 { '3' }
    else if d == 4 { '4' }
    else if d == 5 { '5' }
    else if d == 6 { '6' }
    else if d == 7 { '7' }
    else if d == 8 { '8' }
    else { '9' }
}

/// Decimal digits of a non-negative integer, most significant first.
pub open spec fn dec_digits(n: int) -> Seq<char>
    decreases n,
{
    if n <= 9 {
        seq![digit_char(n)]
    } else {
        dec_digits(n / 10).push(digit_char(n % 10))
    }
}

/// Canonical text of a JSON integer.
pub open spec fn int_text(i: int) -> Seq<char> {
    if i < 0 {
        seq!['-'] + dec_digits(-i)
    } else {
        dec_digits(i)
    }
}

/// The hexadecimal digit character for `d` (lower case).
pub open spec fn hex_char(d: int) -> char {
    if d == 10 { 'a' }
    else if d == 11 { 'b' }
    else if d == 12 { 'c' }
    else if d == 13 { 'd' }
    else if d == 14 { 'e' }
    else if d == 15 { 'f' }
    else { digit_char(d) }
}

/// How one character of a JSON string is written: quote and backslash get a
/// backslash escape, the common control characters their short escapes, the
/// remaining control characters a `\u00XX` escape, and everything else
/// stands as itself.
pub open spec fn esc_char(c: char) -> Seq<char> {
    if c == '"' {
        seq!['\\', '"']
    } else if c == '\\' {
        seq!['\\', '\\']
    } else if c == '\n' {
        seq!['\\', 'n']
    } else if c == '\r' {
        seq!['\\', 'r']
    } else if c == '\t' {
        seq!['\\', 't']
    } else if (c as u32) < 32 {
        seq!['\\', 'u', '0', '0', hex_char((c as u32) as int / 16), hex_char((c as u32) as int % 16)]
    } else {
        seq![c]
    }
}

/// The escaped text of the first `n` characters of a string body.
pub open spec fn esc_upto(s: Seq<char>, n: int) -> Seq<char>
    decreases n,
{
    if n <= 0 {
        Seq::empty()
    } else {
        esc_upto(s, n - 1) + esc_char(s[n - 1])
    }
}

/// Canonical text of a JSON string: quoted, body escaped.
pub open spec fn str_text(s: Seq<char>) -> Seq<char> {
    seq!['"'] + esc_upto(s, s.len() as int) + seq!['"']
}

/// Canonical text of a JSON value.
pub open spec fn jtext(v: JVal) -> Seq<char>
    decreases v, 0int, 0int,
{
    match v {
        JVal::Null => seq!['n', 'u', 'l', 'l'],
        JVal::Bool(b) => if b { seq!['t', 'r', 'u', 'e'] } else { seq!['f', 'a', 'l', 's', 'e'] },
        JVal::Int(i) => int_text(i),
        JVal::Str(s) => str_text(s),
        JVal::Arr(a) => seq!['['] + items_text(a, a.len() as int) + seq![']'],
        JVal::Obj(fs) => seq!['{'] + fields_text(fs, fs.len() as int) + seq!['}'],
    }
}

/// Text of the first `n` array items, comma separated.
pub open spec fn items_text(a: Seq<JVal>, n: int) -> Seq<char>
    decreases a, n, 0int,
    via items_text_dec
{
    if n <= 0 || n > a.len() {
        Seq::empty()
    } else if n == 1 {
        jtext(a[0])
    } else {
        items_text(a, n - 1) + seq![','] + jtext(a[n - 1])
    }
}

#[via_fn]
proof fn items_text_dec(a: Seq<JVal>, n: int) {
    if 0 < n <= a.len() {
        assert(decreases_to!(a, n, 0int => a[0], 0int, 0int));
        assert(decreases_to!(a, n, 0int => a[n - 1], 0int, 0int));
    }
}

/// Text of the first `n` object fields, comma separated.
pub open spec fn fields_text(fs: Seq<(Seq<char>, JVal)>, n: int) -> Seq<char>
    decreases fs, n, 0int,
    via fields_text_dec
{
    if n <= 0 || n > fs.len() {
        Seq::empty()
    } else if n == 1 {
        str_text(fs[0].0) + seq![':'] + jtext(fs[0].1)
    } else {
        fields_text(fs, n - 1) + seq![','] + str_text(fs[n - 1].0) + seq![':'] + jtext(fs[n - 1].1)
    }
}

#[via_fn]
proof fn fields_text_dec(fs: Seq<(Seq<char>, JVal)>, n: int) {
    if 0 < n <= fs.len() {
        assert(decreases_to!(fs => fs[0]));
        assert(decreases_to!(fs => fs[n - 1]));
        assert(decreases_to!(fs, n, 0int => fs[0].1, 0int, 0int));
        assert(decreases_to!(fs, n, 0int => fs[n - 1].1, 0int, 0int));
    }
}

/// First binding of `key` among the fields from position `i` on.
pub open spec fn obj_get_from(fs: Seq<(Seq<char>, JVal)>, key: Seq<char>, i: int) -> Option<JVal>
    decreases fs.len() - i,
{
    if i < 0 || i >= fs.len() {
        None
    } else if fs[i].0 == key {
        Some(fs[i].1)
    } else {
        obj_get_from(fs, key, i + 1)
    }
}

/// First binding of `key` in an object's fields.
pub open spec fn obj_get(fs: Seq<(Seq<char>, JVal)>, key: Seq<char>) -> Option<JVal> {
    obj_get_from(fs, key, 0)
}

/// The decimal digit character for `d`, executably.
fn digit_char_x(d: u64) -> (r: char)
    requires
        d < 10,
    ensures
        r == digit_char(d as int),
{
    if d == 0 { '0' }
    else if d == 1 { '1' }
    else if d == 2 { '2' }
    else if d == 3 { '3' }
    else if d == 4 { '4' }
    else if d == 5 { '5' }
    else if d == 6 { '6' }
    else if d == 7 { '7' }
    else if d == 8 { '8' }
    else { '9' }
}

/// The hexadecimal digit character for `d`, executably.
fn hex_char_x(d: u64) -> (r: char)
    requires
        d < 16,
    ensures
        r == hex_char(d as int),
{
    if d >= 10 {
        if d == 10 { 'a' }
        else if d == 11 { 'b' }
        else if d == 12 { 'c' }
        else if d == 13 { 'd' }
        else if d == 14 { 'e' }
        else { 'f' }
    } else {
        digit_char_x(d)
    }
}

/// Appends the decimal digits of `n`, most significant first.
fn push_dec(n: u64, out: &mut Vec<char>)
    ensures
        final(out)@ == old(out)@ + dec_digits(n as int),
    decreases n,
{
    if n <= 9 {
        out.push(digit_char_x(n));
    } else {
        push_dec(n / 10, out);
        out.push(digit_char_x(n % 10));
    }
}

/// Appends the canonical text of a JSON integer.
fn push_int(i: i64, out: &mut Vec<char>)
    ensures
        final(out)@ == old(out)@ + int_text(i as int),
{
    if i < 0 {
        out.push('-');
        let mag: u64 = if i == i64::MIN {
            9223372036854775808u64
        } else {
            (-i) as u64
        };
        assert(mag as int == -(i as int));
        push_dec(mag, out);
        assert(out@ =~= old(out)@ + int_text(i as int));
    } else {
        push_dec(i as u64, out);
    }
}

/// Appends the escape of one string-body character.
fn push_esc_char(c: char, out: &mut Vec<char>)
    ensures
        final(out)@ == old(out)@ + esc_char(c),
{
    if c == '"' {
        out.push('\\');
        out.push('"');
    } else if c == '\\' {
        out.push('\\');
        out.push('\\');
    } else if c == '\n' {
        out.push('\\');
        out.push('n');
    } else if c == '\r' {
        out.push('\\');
        out.push('r');
    } else if c == '\t' {
        out.push('\\');
        out.push('t');
    } else if (c as u32) < 32 {
        out.push('\\');
        out.push('u');
        out.push('0');
        out.push('0');
        out.push(hex_char_x((c as u32 / 16) as u64));
        out.push(hex_char_x((c as u32 % 16) as u64));
    } else {
        out.push(c);
    }
    assert(out@ =~= old(out)@ + esc_char(c));
}

/// Appends the canonical text of a JSON string.
fn push_str_text(s: &str, out: &mut Vec<char>)
    ensures
        final(out)@ == old(out)@ + str_text(s@),
{
    out.push('"');
    let n: usize = s.unicode_len();
    let mut i: usize = 0;
    while i < n
        invariant
            n == s@.len(),
            i <= n,
            out@ == old(out)@ + seq!['"'] + esc_upto(s@, i as int),
        decreases n - i,
    {
        let c = s.get_char(i);
        push_esc_char(c, out);
        i = i + 1;
    }
    out.push('"');
    assert(out@ =~= old(out)@ + str_text(s@));
}

/// Appends the canonical text of a JSON value.
#[verifier::loop_isolation(false)]
pub fn push_jval(v: &JsonValue, out: &mut Vec<char>)
    ensures
        final(out)@ == old(out)@ + jtext(jv(*v)),
    decreases *v, 0int, 0int,
{
    match v {
        JsonValue::Null => {
            out.push('n');
            out.push('u');
            out.push('l');
            out.push('l');
            assert(out@ =~= old(out)@ + jtext(jv(*v)));
        },
        JsonValue::Bool(b) => {
            if *b {
                out.push('t');
                out.push('r');
                out.push('u');
                out.push('e');
            } else {
                out.push('f');
                out.push('a');
                out.push('l');
                out.push('s');
                out.push('e');
            }
            assert(out@ =~= old(out)@ + jtext(jv(*v)));
        },
        JsonValue::Int(i) => {
            push_int(*i, out);
        },
        JsonValue::Str(s) => {
            push_str_text(s.as_str(), out);
        },
        JsonValue::Arr(a) => {
            out.push('[');
            let ghost va = jv_seq(a@, a@.len() as int);
            proof {
                lemma_jv_seq(a@, a@.len() as int);
            }
            let n: usize = a.len();
            let mut i: usize = 0;
            while i < n
                invariant
                    n == a@.len(),
                    i <= n,
                    va == jv_seq(a@, a@.len() as int),
                    va.len() == n,
                    forall|k: int| 0 <= k < n ==> va[k] == jv(a@[k]),
                    out@ == old(out)@ + seq!['['] + items_text(va, i as int),
                decreases n - i,
            {
                if i > 0 {
                    out.push(',');
                }
                proof {
                    assert(decreases_to!(*v => (*v)->Arr_0));
                    assert((*v)->Arr_0 == *a);
                    assert(decreases_to!(*a => a@));
                    assert(decreases_to!(a@ => a@[i as int]));
                    assert(decreases_to!(*v, 0int, 0int => a@[i as int], 0int, 0int));
                }
                push_jval(&a[i], out);
                assert(out@ =~= old(out)@ + seq!['['] + items_text(va, i + 1 as int));
                i = i + 1;
            }
            out.push(']');
            assert(out@ =~= old(out)@ + jtext(jv(*v)));
        },
        JsonValue::Obj(fs) => {
            out.push('{');
            let ghost vfs = jv_fields(fs@, fs@.len() as int);
            proof {
                lemma_jv_fields(fs@, fs@.len() as int);
            }
            let n: usize = fs.len();
            let mut i: usize = 0;
            while i < n
                invariant
                    n == fs@.len(),
                    i <= n,
                    vfs == jv_fields(fs@, fs@.len() as int),
                    vfs.len() == n,
                    forall|k: int| 0 <= k < n ==> vfs[k] == (fs@[k].0@, jv(fs@[k].1)),
                    out@ == old(out)@ + seq!['{'] + fields_text(vfs, i as int),
                decreases n - i,
            {
                if i > 0 {
                    out.push(',');
                }
                push_str_text(fs[i].0.as_str(), out);
                out.push(':');
                proof {
                    assert(decreases_to!(*v => (*v)->Obj_0));
                    assert((*v)->Obj_0 == *fs);
                    assert(decreases_to!(*fs => fs@));
                    assert(decreases_to!(fs@ => fs@[i as int]));
                    assert(decreases_to!(fs@[i as int] => fs@[i as int].1));
                    assert(decreases_to!(*v, 0int, 0int => fs@[i as int].1, 0int, 0int));
                }
                push_jval(&fs[i].1, out);
                assert(out@ =~= old(out)@ + seq!['{'] + fields_text(vfs, i + 1 as int));
                i = i + 1;
            }
            out.push('}');
            assert(out@ =~= old(out)@ + jtext(jv(*v)));
        },
    }
}

/// Relies on `Iterator::collect` for `String`: collecting a sequence of
/// characters yields the string of exactly those characters, in order.
#[verifier::external_body]
pub fn chars_to_string(v: &Vec<char>) -> (r: String)
    ensures
        r@ == v@,
{
    v.iter().collect()
}

/// The canonical text of a JSON value, as a string.
pub fn to_text(v: &JsonValue) -> (r: String)
    ensures
        r@ == jtext(jv(*v)),
{
    let mut out: Vec<char> = Vec::new();
    push_jval(v, &mut out);
    chars_to_string(&out)
}

/// The characters of a string, as a vector.
pub fn str_to_chars(s: &str) -> (r: Vec<char>)
    ensures
        r@ == s@,
{
    let n: usize = s.unicode_len();
    let mut out: Vec<char> = Vec::new();
    let mut i: usize = 0;
    while i < n
        invariant
            n == s@.len(),
            i <= n,
            out@ == s@.take(i as int),
        decreases n - i,
    {
        out.push(s.get_char(i));
        assert(out@ =~= s@.take(i + 1 as int));
        i = i + 1;
    }
    assert(out@ =~= s@);
    out
}

/// Whether two string slices hold the same characters.
pub fn str_eq(a: &str, b: &str) -> (r: bool)
    ensures
        r == (a@ == b@),
{
    let na: usize = a.unicode_len();
    let nb: usize = b.unicode_len();
    if na != nb {
        return false;
    }
    let mut i: usize = 0;
    while i < na
        invariant
            na == a@.len(),
            na == b@.len(),
            i <= na,
            forall|k: int| 0 <= k < i ==> a@[k] == b@[k],
        decreases na - i,
    {
        if a.get_char(i) != b.get_char(i) {
            return false;
        }
        i = i + 1;
    }
    proof {
        assert(a@ =~= b@);
    }
    true
}

/// First binding of `key` in an object's fields, executably.
pub fn obj_find<'a>(fields: &'a Vec<(String, JsonValue)>, key: &str) -> (r: Option<&'a JsonValue>)
    ensures
        match r {
            Some(v) => obj_get(jv_fields(fields@, fields@.len() as int), key@) == Some(jv(*v)),
            None => obj_get(jv_fields(fields@, fields@.len() as int), key@) is None,
        },
{
    let ghost vfs = jv_fields(fields@, fields@.len() as int);
    proof {
        lemma_jv_fields(fields@, fields@.len() as int);
    }
    let n: usize = fields.len();
    let mut i: usize = 0;
    while i < n
        invariant
            n == fields@.len(),
            i <= n,
            vfs == jv_fields(fields@, fields@.len() as int),
            vfs.len() == n,
            forall|k: int| 0 <= k < n ==> vfs[k] == (fields@[k].0@, jv(fields@[k].1)),
            obj_get(vfs, key@) == obj_get_from(vfs, key@, i as int),
        decreases n - i,
    {
        if str_eq(fields[i].0.as_str(), key) {
            return Some(&fields[i].1);
        }
        i = i + 1;
    }
    None
}

} // verus!
