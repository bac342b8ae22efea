//! Cookie records as the protocol carries them: the wire JSON shape has
//! `name` and `value` always, and `path`, `domain`, `secure`, `httpOnly` and
//! `expiry` only when they are set. Reading the shape back accepts an absent
//! field and an explicit `null` alike as "not set".

use vstd::prelude::*;

use crate::json::JVal;
use crate::json::JsonValue;
use crate::json::jv;
use crate::json::jv_fields;
use crate::json::lemma_jv_fields;
use crate::json::lemma_jv_fields_push;
use crate::json::obj_get;
use crate::json::obj_find;

verus! {

/// Mathematical model of a cookie record.
pub struct CookieModel {
    pub name: Seq<char>,
    pub value: Seq<char>,
    pub path: Option<Seq<char>>,
    pub domain: Option<Seq<char>>,
    pub secure: Option<bool>,
    pub http_only: Option<bool>,
    pub expiry: Option<int>,
}

/// One cookie, as sent to and read from the cookie endpoint. `expiry` is in
/// epoch seconds.
#[allow(non_snake_case)]
#[derive(Debug, PartialEq)]
pub struct CookieJSONObject {
    pub name: String,
    pub value: String,
    pub path: Option<String>,
    pub domain: Option<String>,
    pub secure: Option<bool>,
    pub httpOnly: Option<bool>,
    pub expiry: Option<i64>,
}

pub open spec fn opt_seq_view(o: Option<String>) -> Option<Seq<char>> {
    match o {
        Some(s) => Some(s@),
        None => None,
    }
}

pub open spec fn opt_int_view(o: Option<i64>) -> Option<int> {
    match o {
        Some(i) => Some(i as int),
        None => None,
    }
}

impl View for CookieJSONObject {
    type V = CookieModel;

    open spec fn view(&self) -> CookieModel {
        CookieModel {
            name: self.name@,
            value: self.value@,
            path: opt_seq_view(self.path),
            domain: opt_seq_view(self.domain),
            secure: self.secure,
            http_only: self.httpOnly,
            expiry: opt_int_view(self.expiry),
        }
    }
}

/// The fields of a cookie's wire JSON shape, in their fixed order; optional
/// fields appear only when set.
pub open spec fn cookie_fields(c: CookieModel) -> Seq<(Seq<char>, JVal)> {
    let f = seq![("name"@, JVal::Str(c.name)), ("value"@, JVal::Str(c.value))];
    let f = if c.path is Some {
        f.push(("path"@, JVal::Str(c.path->0)))
    } else {
        f
    };
    let f = if c.domain is Some {
        f.push(("domain"@, JVal::Str(c.domain->0)))
    } else {
        f
    };
    let f = if c.secure is Some {
        f.push(("secure"@, JVal::Bool(c.secure->0)))
    } else {
        f
    };
    let f = if c.http_only is Some {
        f.push(("httpOnly"@, JVal::Bool(c.http_only->0)))
    } else {
        f
    };
    if c.expiry is Some {
        f.push(("expiry"@, JVal::Int(c.expiry->0)))
    } else {
        f
    }
}

/// A cookie's wire JSON shape.
pub open spec fn cookie_jval(c: CookieModel) -> JVal {
    JVal::Obj(cookie_fields(c))
}

/// An optional string field: absent or `null` is "not set", a string is its
/// value, anything else does not fit the shape.
pub open spec fn opt_str_field(fs: Seq<(Seq<char>, JVal)>, key: Seq<char>) -> Option<
    Option<Seq<char>>,
> {
    match obj_get(fs, key) {
        None => Some(None),
        Some(JVal::Null) => Some(None),
        Some(JVal::Str(s)) => Some(Some(s)),
        Some(_) => None,
    }
}

/// An optional boolean field, read as `opt_str_field` is.
pub open spec fn opt_bool_field(fs: Seq<(Seq<char>, JVal)>, key: Seq<char>) -> Option<
    Option<bool>,
> {
    match obj_get(fs, key) {
        None => Some(None),
        Some(JVal::Null) => Some(None),
        Some(JVal::Bool(b)) => Some(Some(b)),
        Some(_) => None,
    }
}

/// An optional integer field, read as `opt_str_field` is.
pub open spec fn opt_int_field(fs: Seq<(Seq<char>, JVal)>, key: Seq<char>) -> Option<Option<int>> {
    match obj_get(fs, key) {
        None => Some(None),
        Some(JVal::Null) => Some(None),
        Some(JVal::Int(i)) => Some(Some(i)),
        Some(_) => None,
    }
}

/// The cookie a JSON value denotes: an object whose `name` and `value` are
/// strings and whose optional fields, where present, have their types.
pub open spec fn cookie_of_jval(v: JVal) -> Option<CookieModel> {
    match v {
        JVal::Obj(fs) => match (obj_get(fs, "name"@), obj_get(fs, "value"@)) {
            (Some(JVal::Str(n)), Some(JVal::Str(val))) => match (
                opt_str_field(fs, "path"@),
                opt_str_field(fs, "domain"@),
                opt_bool_field(fs, "secure"@),
                opt_bool_field(fs, "httpOnly"@),
                opt_int_field(fs, "expiry"@),
            ) {
                (Some(p), Some(d), Some(sec), Some(h), Some(e)) => Some(
                    CookieModel {
                        name: n,
                        value: val,
                        path: p,
                        domain: d,
                        secure: sec,
                        http_only: h,
                        expiry: e,
                    },
                ),
                _ => None,
            },
            _ => None,
        },
        _ => None,
    }
}

/// A cookie's wire JSON shape, executably.
pub fn cookie_to_json(c: &CookieJSONObject) -> (r: JsonValue)
    ensures
        jv(r) == cookie_jval(c@),
{
    let mut fields: Vec<(String, JsonValue)> = Vec::new();
    let ghost p0 = fields@;
    let key0 = "name".to_owned();
    let val0 = JsonValue::Str(c.name.clone());
    proof {
        lemma_jv_fields_push(p0, key0, val0);
    }
    fields.push((key0, val0));
    let ghost p1 = fields@;
    let key1 = "value".to_owned();
    let val1 = JsonValue::Str(c.value.clone());
    proof {
        lemma_jv_fields_push(p1, key1, val1);
    }
    fields.push((key1, val1));
    match &c.path {
        Some(s) => {
            let ghost p2 = fields@;
            let key2 = "path".to_owned();
            let val2 = JsonValue::Str(s.clone());
            proof {
                lemma_jv_fields_push(p2, key2, val2);
            }
            fields.push((key2, val2));
        },
        None => {},
    }
    match &c.domain {
        Some(s) => {
            let ghost p3 = fields@;
            let key3 = "domain".to_owned();
            let val3 = JsonValue::Str(s.clone());
            proof {
                lemma_jv_fields_push(p3, key3, val3);
            }
            fields.push((key3, val3));
        },
        None => {},
    }
    match c.secure {
        Some(b) => {
            let ghost p4 = fields@;
            let key4 = "secure".to_owned();
            let val4 = JsonValue::Bool(b);
            proof {
                lemma_jv_fields_push(p4, key4, val4);
            }
            fields.push((key4, val4));
        },
        None => {},
    }
    match c.httpOnly {
        Some(b) => {
            let ghost p5 = fields@;
            let key5 = "httpOnly".to_owned();
            let val5 = JsonValue::Bool(b);
            proof {
                lemma_jv_fields_push(p5, key5, val5);
            }
            fields.push((key5, val5));
        },
        None => {},
    }
    match c.expiry {
        Some(e) => {
            let ghost p6 = fields@;
            let key6 = "expiry".to_owned();
            let val6 = JsonValue::Int(e);
            proof {
                lemma_jv_fields_push(p6, key6, val6);
            }
            fields.push((key6, val6));
        },
        None => {},
    }
    proof {
        assert(jv_fields(fields@, fields@.len() as int) =~= cookie_fields(c@));
    }
    JsonValue::Obj(fields)
}

/// An optional string field, executably.
fn opt_str_get(fields: &Vec<(String, JsonValue)>, key: &str) -> (r: Option<Option<String>>)
    ensures
        match r {
            Some(o) => opt_str_field(jv_fields(fields@, fields@.len() as int), key@) == Some(
                opt_seq_view(o),
            ),
            None => opt_str_field(jv_fields(fields@, fields@.len() as int), key@) is None,
        },
{
    match obj_find(fields, key) {
        None => Some(None),
        Some(JsonValue::Null) => Some(None),
        Some(JsonValue::Str(s)) => Some(Some(s.clone())),
        Some(_) => None,
    }
}

/// An optional boolean field, executably.
fn opt_bool_get(fields: &Vec<(String, JsonValue)>, key: &str) -> (r: Option<Option<bool>>)
    ensures
        match r {
            Some(o) => opt_bool_field(jv_fields(fields@, fields@.len() as int), key@) == Some(o),
            None => opt_bool_field(jv_fields(fields@, fields@.len() as int), key@) is None,
        },
{
    match obj_find(fields, key) {
        None => Some(None),
        Some(JsonValue::Null) => Some(None),
        Some(JsonValue::Bool(b)) => Some(Some(*b)),
        Some(_) => None,
    }
}

/// An optional integer field, executably.
fn opt_int_get(fields: &Vec<(String, JsonValue)>, key: &str) -> (r: Option<Option<i64>>)
    ensures
        match r {
            Some(o) => opt_int_field(jv_fields(fields@, fields@.len() as int), key@) == Some(
                opt_int_view(o),
            ),
            None => opt_int_field(jv_fields(fields@, fields@.len() as int), key@) is None,
        },
{
    match obj_find(fields, key) {
        None => Some(None),
        Some(JsonValue::Null) => Some(None),
        Some(JsonValue::Int(i)) => Some(Some(*i)),
        Some(_) => None,
    }
}

/// The cookie a JSON value denotes, executably.
pub fn cookie_from_json(v: &JsonValue) -> (r: Option<CookieJSONObject>)
    ensures
        match r {
            Some(c) => cookie_of_jval(jv(*v)) == Some(c@),
            None => cookie_of_jval(jv(*v)) is None,
        },
{
    match v {
        JsonValue::Obj(fields) => {
            let name: String = match obj_find(fields, "name") {
                Some(JsonValue::Str(s)) => s.clone(),
                _ => {
                    return None;
                },
            };
            let value: String = match obj_find(fields, "value") {
                Some(JsonValue::Str(s)) => s.clone(),
                _ => {
                    return None;
                },
            };
            let path: Option<String> = match opt_str_get(fields, "path") {
                Some(o) => o,
                None => {
                    return None;
                },
            };
            let domain: Option<String> = match opt_str_get(fields, "domain") {
                Some(o) => o,
                None => {
                    return None;
                },
            };
            let secure: Option<bool> = match opt_bool_get(fields, "secure") {
                Some(o) => o,
                None => {
                    return None;
                },
            };
            let http_only: Option<bool> = match opt_bool_get(fields, "httpOnly") {
                Some(o) => o,
                None => {
                    return None;
                },
            };
            let expiry: Option<i64> = match opt_int_get(fields, "expiry") {
                Some(o) => o,
                None => {
                    return None;
                },
            };
            Some(
                CookieJSONObject {
                    name,
                    value,
                    path,
                    domain,
                    secure,
                    httpOnly: http_only,
                    expiry,
                },
            )
        },
        _ => None,
    }
}

/// Law: writing a cookie to its wire JSON shape and reading that same shape
/// back yields the cookie unchanged, field for field; optional fields that
/// were not set come back not set.
pub proof fn lemma_obj_get_from_push(
    fs: Seq<(Seq<char>, JVal)>,
    p: (Seq<char>, JVal),
    key: Seq<char>,
    i: int,
)
    requires
        0 <= i <= fs.len(),
    ensures
        crate::json::obj_get_from(fs.push(p), key, i) == (match crate::json::obj_get_from(
            fs,
            key,
            i,
        ) {
            Some(x) => Some(x),
            None => if p.0 == key {
                Some(p.1)
            } else {
                None
            },
        }),
    decreases fs.len() - i,
{
    if i < fs.len() {
        assert(fs.push(p)[i] == fs[i]);
        if fs[i].0 != key {
            lemma_obj_get_from_push(fs, p, key, i + 1);
        }
    } else {
        assert(fs.push(p)[i] == p);
        reveal_with_fuel(crate::json::obj_get_from, 3);
    }
}

/// How a lookup moves past one appended field: an earlier binding still
/// wins; otherwise the new field answers exactly for its own key.
pub proof fn lemma_obj_get_push(fs: Seq<(Seq<char>, JVal)>, p: (Seq<char>, JVal), key: Seq<char>)
    ensures
        obj_get(fs.push(p), key) == (match obj_get(fs, key) {
            Some(x) => Some(x),
            None => if p.0 == key {
                Some(p.1)
            } else {
                None
            },
        }),
{
    lemma_obj_get_from_push(fs, p, key, 0);
}

#[verifier::rlimit(100)]
pub proof fn lemma_cookie_round_trip(c: CookieModel)
    ensures
        cookie_of_jval(cookie_jval(c)) == Some(c),
{
    reveal_with_fuel(crate::json::obj_get_from, 5);
    reveal_strlit("name");
    reveal_strlit("value");
    reveal_strlit("path");
    reveal_strlit("domain");
    reveal_strlit("secure");
    reveal_strlit("httpOnly");
    reveal_strlit("expiry");
    let f1 = seq![("name"@, JVal::Str(c.name)), ("value"@, JVal::Str(c.value))];
    assert(f1.len() == 2);
    assert(f1[0] == ("name"@, JVal::Str(c.name)));
    assert(f1[1] == ("value"@, JVal::Str(c.value)));
    assert("name"@.len() == 4);
    assert("value"@.len() == 5);
    assert(("name"@) != ("value"@));
    assert("name"@[0] == 'n');
    assert("path"@[0] == 'p');
    assert("value"@[0] == 'v');
    assert("domain"@[0] == 'd');
    assert("secure"@[0] == 's');
    assert("expiry"@[0] == 'e');
    assert("httpOnly"@[0] == 'h');
    let f2 = if c.path is Some { f1.push(("path"@, JVal::Str(c.path->0))) } else { f1 };
    if c.path is Some {
        lemma_obj_get_push(f1, ("path"@, JVal::Str(c.path->0)), "name"@);
        lemma_obj_get_push(f1, ("path"@, JVal::Str(c.path->0)), "value"@);
        lemma_obj_get_push(f1, ("path"@, JVal::Str(c.path->0)), "path"@);
        lemma_obj_get_push(f1, ("path"@, JVal::Str(c.path->0)), "domain"@);
        lemma_obj_get_push(f1, ("path"@, JVal::Str(c.path->0)), "secure"@);
        lemma_obj_get_push(f1, ("path"@, JVal::Str(c.path->0)), "httpOnly"@);
        lemma_obj_get_push(f1, ("path"@, JVal::Str(c.path->0)), "expiry"@);
    }
    let f3 = if c.domain is Some { f2.push(("domain"@, JVal::Str(c.domain->0))) } else { f2 };
    if c.domain is Some {
        lemma_obj_get_push(f2, ("domain"@, JVal::Str(c.domain->0)), "name"@);
        lemma_obj_get_push(f2, ("domain"@, JVal::Str(c.domain->0)), "value"@);
        lemma_obj_get_push(f2, ("domain"@, JVal::Str(c.domain->0)), "path"@);
        lemma_obj_get_push(f2, ("domain"@, JVal::Str(c.domain->0)), "domain"@);
        lemma_obj_get_push(f2, ("domain"@, JVal::Str(c.domain->0)), "secure"@);
        lemma_obj_get_push(f2, ("domain"@, JVal::Str(c.domain->0)), "httpOnly"@);
        lemma_obj_get_push(f2, ("domain"@, JVal::Str(c.domain->0)), "expiry"@);
    }
    let f4 = if c.secure is Some { f3.push(("secure"@, JVal::Bool(c.secure->0))) } else { f3 };
    if c.secure is Some {
        lemma_obj_get_push(f3, ("secure"@, JVal::Bool(c.secure->0)), "name"@);
        lemma_obj_get_push(f3, ("secure"@, JVal::Bool(c.secure->0)), "value"@);
        lemma_obj_get_push(f3, ("secure"@, JVal::Bool(c.secure->0)), "path"@);
        lemma_obj_get_push(f3, ("secure"@, JVal::Bool(c.secure->0)), "domain"@);
        lemma_obj_get_push(f3, ("secure"@, JVal::Bool(c.secure->0)), "secure"@);
        lemma_obj_get_push(f3, ("secure"@, JVal::Bool(c.secure->0)), "httpOnly"@);
        lemma_obj_get_push(f3, ("secure"@, JVal::Bool(c.secure->0)), "expiry"@);
    }
    let f5 = if c.http_only is Some { f4.push(("httpOnly"@, JVal::Bool(c.http_only->0))) } else { f4 };
    if c.http_only is Some {
        lemma_obj_get_push(f4, ("httpOnly"@, JVal::Bool(c.http_only->0)), "name"@);
        lemma_obj_get_push(f4, ("httpOnly"@, JVal::Bool(c.http_only->0)), "value"@);
        lemma_obj_get_push(f4, ("httpOnly"@, JVal::Bool(c.http_only->0)), "path"@);
        lemma_obj_get_push(f4, ("httpOnly"@, JVal::Bool(c.http_only->0)), "domain"@);
        lemma_obj_get_push(f4, ("httpOnly"@, JVal::Bool(c.http_only->0)), "secure"@);
        lemma_obj_get_push(f4, ("httpOnly"@, JVal::Bool(c.http_only->0)), "httpOnly"@);
        lemma_obj_get_push(f4, ("httpOnly"@, JVal::Bool(c.http_only->0)), "expiry"@);
    }
    let f6 = if c.expiry is Some { f5.push(("expiry"@, JVal::Int(c.expiry->0))) } else { f5 };
    if c.expiry is Some {
        lemma_obj_get_push(f5, ("expiry"@, JVal::Int(c.expiry->0)), "name"@);
        lemma_obj_get_push(f5, ("expiry"@, JVal::Int(c.expiry->0)), "value"@);
        lemma_obj_get_push(f5, ("expiry"@, JVal::Int(c.expiry->0)), "path"@);
        lemma_obj_get_push(f5, ("expiry"@, JVal::Int(c.expiry->0)), "domain"@);
        lemma_obj_get_push(f5, ("expiry"@, JVal::Int(c.expiry->0)), "secure"@);
        lemma_obj_get_push(f5, ("expiry"@, JVal::Int(c.expiry->0)), "httpOnly"@);
        lemma_obj_get_push(f5, ("expiry"@, JVal::Int(c.expiry->0)), "expiry"@);
    }
    assert(cookie_fields(c) == f6);
    assert(obj_get(f6, "name"@) == Some(JVal::Str(c.name)));
    assert(obj_get(f6, "value"@) == Some(JVal::Str(c.value)));
    assert(obj_get(f6, "path"@) == (match c.path {
        Some(x) => Some(JVal::Str(x)),
        None => None,
    }));
    assert(obj_get(f6, "domain"@) == (match c.domain {
        Some(x) => Some(JVal::Str(x)),
        None => None,
    }));
    assert(obj_get(f6, "secure"@) == (match c.secure {
        Some(x) => Some(JVal::Bool(x)),
        None => None,
    }));
    assert(obj_get(f6, "httpOnly"@) == (match c.http_only {
        Some(x) => Some(JVal::Bool(x)),
        None => None,
    }));
    assert(obj_get(f6, "expiry"@) == (match c.expiry {
        Some(x) => Some(JVal::Int(x)),
        None => None,
    }));
    assert(cookie_of_jval(cookie_jval(c)) == Some(c));
}

} // verus!
