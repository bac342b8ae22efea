//! The session protocol client: one remote PhantomJS browsing session and
//! the request/response exchange of each operation against it. Every
//! operation is split into the request it issues — method, URL and body,
//! pinned exactly by the contracts — and the reading of the JSON envelope
//! `{sessionId, status, value}` that the server answers with. The transport
//! that carries a request and brings back a body is outside this crate.

use vstd::prelude::*;
use vstd::string::StringExecFns;

use crate::ClientError;
use crate::json::JVal;
use crate::json::JsonValue;
use crate::json::jv;
use crate::json::jv_fields;
use crate::json::jtext;
use crate::json::lemma_jv_fields;
use crate::json::lemma_jv_fields_push;
use crate::json::lemma_jv_seq;
use crate::json::obj_get;
use crate::json::obj_find;
use crate::json::to_text;
use crate::parse::sp_json;
use crate::parse::parse_json;
use crate::parse::is_ws;
use crate::parse::ws_end;
use crate::cookie_record::CookieJSONObject;
use crate::cookie_record::CookieModel;
use crate::cookie_record::cookie_jval;
use crate::cookie_record::cookie_of_jval;
use crate::cookie_record::cookie_to_json;
use crate::cookie_record::cookie_from_json;

verus! {

/// The HTTP method of a request.
#[derive(Clone, Copy, Debug, PartialEq, Eq, Structural)]
pub enum HttpMethod {
    Get,
    Post,
    Delete,
}

/// One HTTP exchange to perform: everything the transport needs.
#[derive(Debug)]
pub struct HttpRequest {
    pub method: HttpMethod,
    pub url: String,
    pub body: Option<String>,
}

/// The URL of the session-creation endpoint.
pub open spec fn session_root(host: Seq<char>, port: Seq<char>) -> Seq<char> {
    "http://"@ + host + ":"@ + port + "/session"@
}

/// One remote browsing session: its server and its id. Everything but
/// creation and teardown addresses a sub-resource of `/session/{id}`.
#[derive(Debug)]
pub struct PhantomJSSession {
    pub host: String,
    pub port: String,
    pub session_id: String,
}

/// The URL of a session sub-resource.
pub open spec fn session_url_of(s: PhantomJSSession, suffix: Seq<char>) -> Seq<char> {
    session_root(s.host@, s.port@) + "/"@ + s.session_id@ + suffix
}

/// The body of the navigation request.
pub open spec fn url_body_jval(url: Seq<char>) -> JVal {
    JVal::Obj(seq![("url"@, JVal::Str(url))])
}

/// The body of the script-execution request: the script, and an always
/// empty argument list.
pub open spec fn script_body_jval(script: Seq<char>) -> JVal {
    JVal::Obj(seq![("script"@, JVal::Str(script)), ("args"@, JVal::Arr(Seq::empty()))])
}

/// The body of one cookie-setting request: the cookie's wire shape, wrapped
/// under a `cookie` key.
pub open spec fn set_cookie_body_jval(c: CookieModel) -> JVal {
    JVal::Obj(seq![("cookie"@, cookie_jval(c))])
}

/// The body of the session-creation request: the fixed PhantomJS capability
/// set, with the caller's user agent injected.
pub open spec fn capabilities_jval(user_agent: Seq<char>) -> JVal {
    JVal::Obj(
        seq![
            (
                "desiredCapabilities"@,
                JVal::Obj(
                    seq![
                        ("platform"@, JVal::Str("ANY"@)),
                        ("browserName"@, JVal::Str("phantomjs"@)),
                        ("version"@, JVal::Str(Seq::empty())),
                        ("phantomjs.page.settings.userAgent"@, JVal::Str(user_agent)),
                    ],
                ),
            ),
        ],
    )
}

/// The `sessionId` of a response envelope, where the envelope is an object
/// whose `sessionId` is a string.
pub open spec fn env_session_id(v: JVal) -> Option<Seq<char>> {
    match v {
        JVal::Obj(fs) => match obj_get(fs, "sessionId"@) {
            Some(JVal::Str(s)) => Some(s),
            _ => None,
        },
        _ => None,
    }
}

/// The `status` of a response envelope, where it is an integer.
pub open spec fn env_status(v: JVal) -> Option<int> {
    match v {
        JVal::Obj(fs) => match obj_get(fs, "status"@) {
            Some(JVal::Int(i)) => Some(i),
            _ => None,
        },
        _ => None,
    }
}

/// The `value` of a response envelope.
pub open spec fn env_value(v: JVal) -> Option<JVal> {
    match v {
        JVal::Obj(fs) => obj_get(fs, "value"@),
        _ => None,
    }
}

/// Whether a JSON value has the envelope shape every endpoint answers
/// with: an object carrying a string `sessionId`, an integer `status` and
/// some `value`.
pub open spec fn env_ok(v: JVal) -> bool {
    &&& env_session_id(v) is Some
    &&& env_status(v) is Some
    &&& env_value(v) is Some
}

/// Builds `{"url": <url>}` as a JSON value.
fn url_body_json(url: &str) -> (r: JsonValue)
    ensures
        jv(r) == url_body_jval(url@),
{
    let mut fields: Vec<(String, JsonValue)> = Vec::new();
    let ghost p0 = fields@;
    let key0 = "url".to_owned();
    let val0 = JsonValue::Str(url.to_owned());
    proof {
        lemma_jv_fields_push(p0, key0, val0);
    }
    fields.push((key0, val0));
    proof {
        assert(jv_fields(fields@, fields@.len() as int) =~= seq![("url"@, JVal::Str(url@))]);
    }
    JsonValue::Obj(fields)
}

impl PhantomJSSession {
    /// The URL of this session's sub-resource named by `suffix`.
    fn build_url(&self, suffix: &str) -> (r: String)
        ensures
            r@ == session_url_of(*self, suffix@),
    {
        let mut u = String::new();
        u.append("http://");
        u.append(self.host.as_str());
        u.append(":");
        u.append(self.port.as_str());
        u.append("/session");
        u.append("/");
        u.append(self.session_id.as_str());
        u.append(suffix);
        proof {
            assert(u@ =~= session_url_of(*self, suffix@));
        }
        u
    }

    /// The single POST that navigation issues: its body is exactly the
    /// canonical text of `{"url": <url>}`.
    pub fn jump_to_url(&self, url: &str) -> (r: HttpRequest)
        ensures
            r.method == HttpMethod::Post,
            r.url@ == session_url_of(*self, "/url"@),
            r.body matches Some(b) && b@ == jtext(url_body_jval(url@)),
    {
        let body_val = url_body_json(url);
        let body = to_text(&body_val);
        HttpRequest { method: HttpMethod::Post, url: self.build_url("/url"), body: Some(body) }
    }

    /// The single POST that script execution issues: its body carries the
    /// script and an empty argument list.
    pub fn execute_script(&self, script: &str) -> (r: HttpRequest)
        ensures
            r.method == HttpMethod::Post,
            r.url@ == session_url_of(*self, "/execute"@),
            r.body matches Some(b) && b@ == jtext(script_body_jval(script@)),
    {
        let mut fields: Vec<(String, JsonValue)> = Vec::new();
        let ghost p0 = fields@;
        let key0 = "script".to_owned();
        let val0 = JsonValue::Str(script.to_owned());
        proof {
            lemma_jv_fields_push(p0, key0, val0);
        }
        fields.push((key0, val0));
        let ghost p1 = fields@;
        let key1 = "args".to_owned();
        let val1 = JsonValue::Arr(Vec::new());
        proof {
            lemma_jv_fields_push(p1, key1, val1);
        }
        fields.push((key1, val1));
        let body_val = JsonValue::Obj(fields);
        proof {
            assert(jv_fields(fields@, fields@.len() as int) =~= seq![
                ("script"@, JVal::Str(script@)),
                ("args"@, JVal::Arr(Seq::empty())),
            ]);
            assert(crate::json::jv_seq(Seq::<JsonValue>::empty(), 0) =~= Seq::<JVal>::empty());
        }
        let body = to_text(&body_val);
        HttpRequest { method: HttpMethod::Post, url: self.build_url("/execute"), body: Some(body) }
    }

    /// The POSTs that cookie setting issues: one request per cookie, to the
    /// cookie endpoint, in input order, each body wrapping one cookie's wire
    /// shape under a `cookie` key.
    pub fn set_cookies(&self, cookies: &Vec<CookieJSONObject>) -> (r: Vec<HttpRequest>)
        ensures
            r@.len() == cookies@.len(),
            forall|i: int|
                0 <= i < r@.len() ==> {
                    &&& (#[trigger] r@[i]).method == HttpMethod::Post
                    &&& r@[i].url@ == session_url_of(*self, "/cookie"@)
                    &&& r@[i].body matches Some(b) && b@ == jtext(
                        set_cookie_body_jval(cookies@[i]@),
                    )
                },
    {
        let mut out: Vec<HttpRequest> = Vec::new();
        let n = cookies.len();
        let mut i: usize = 0;
        while i < n
            invariant
                n == cookies@.len(),
                i <= n,
                out@.len() == i,
                forall|k: int|
                    0 <= k < i ==> {
                        &&& (#[trigger] out@[k]).method == HttpMethod::Post
                        &&& out@[k].url@ == session_url_of(*self, "/cookie"@)
                        &&& out@[k].body matches Some(b) && b@ == jtext(
                            set_cookie_body_jval(cookies@[k]@),
                        )
                    },
            decreases n - i,
        {
            let mut fields: Vec<(String, JsonValue)> = Vec::new();
            let ghost p0 = fields@;
            let key0 = "cookie".to_owned();
            let val0 = cookie_to_json(&cookies[i]);
            proof {
                lemma_jv_fields_push(p0, key0, val0);
            }
            fields.push((key0, val0));
            let body_val = JsonValue::Obj(fields);
            proof {
                assert(jv_fields(fields@, fields@.len() as int) =~= seq![
                    ("cookie"@, cookie_jval(cookies@[i as int]@)),
                ]);
            }
            let body = to_text(&body_val);
            let req = HttpRequest {
                method: HttpMethod::Post,
                url: self.build_url("/cookie"),
                body: Some(body),
            };
            out.push(req);
            i = i + 1;
        }
        out
    }

    /// The GET that cookie listing issues; the answer is read by
    /// `decode_cookie_envelope`.
    pub fn get_cookies(&self) -> (r: HttpRequest)
        ensures
            r.method == HttpMethod::Get,
            r.url@ == session_url_of(*self, "/cookie"@),
            r.body is None,
    {
        HttpRequest { method: HttpMethod::Get, url: self.build_url("/cookie"), body: None }
    }

    /// The GET that a screenshot capture issues; the answer is read by
    /// `screenshot_bytes`.
    pub fn capture_screenshot(&self) -> (r: HttpRequest)
        ensures
            r.method == HttpMethod::Get,
            r.url@ == session_url_of(*self, "/screenshot"@),
            r.body is None,
    {
        HttpRequest { method: HttpMethod::Get, url: self.build_url("/screenshot"), body: None }
    }

    /// The DELETE that tears the session down. It consumes the session, so
    /// no further operation — and no second teardown — can be issued on it.
    pub fn teardown(self) -> (r: HttpRequest)
        ensures
            r.method == HttpMethod::Delete,
            r.url@ == session_url_of(self, Seq::<char>::empty()),
            r.body is None,
    {
        proof {
            reveal_strlit("");
        }
        let url = self.build_url("");
        HttpRequest { method: HttpMethod::Delete, url, body: None }
    }
}

/// The POST that creates a session: the fixed capability set, with the
/// caller's user agent, sent to the creation endpoint.
pub fn create_session_request(host: &str, port: &str, user_agent: &str) -> (r: HttpRequest)
    ensures
        r.method == HttpMethod::Post,
        r.url@ == session_root(host@, port@),
        r.body matches Some(b) && b@ == jtext(capabilities_jval(user_agent@)),
{
    let mut inner: Vec<(String, JsonValue)> = Vec::new();
    let ghost q0 = inner@;
    let ikey0 = "platform".to_owned();
    let ival0 = JsonValue::Str("ANY".to_owned());
    proof {
        lemma_jv_fields_push(q0, ikey0, ival0);
    }
    inner.push((ikey0, ival0));
    let ghost q1 = inner@;
    let ikey1 = "browserName".to_owned();
    let ival1 = JsonValue::Str("phantomjs".to_owned());
    proof {
        lemma_jv_fields_push(q1, ikey1, ival1);
    }
    inner.push((ikey1, ival1));
    let ghost q2 = inner@;
    let ikey2 = "version".to_owned();
    let ival2 = JsonValue::Str(String::new());
    proof {
        lemma_jv_fields_push(q2, ikey2, ival2);
    }
    inner.push((ikey2, ival2));
    let ghost q3 = inner@;
    let ikey3 = "phantomjs.page.settings.userAgent".to_owned();
    let ival3 = JsonValue::Str(user_agent.to_owned());
    proof {
        lemma_jv_fields_push(q3, ikey3, ival3);
    }
    inner.push((ikey3, ival3));
    let ghost inner_model = seq![
        ("platform"@, JVal::Str("ANY"@)),
        ("browserName"@, JVal::Str("phantomjs"@)),
        ("version"@, JVal::Str(Seq::empty())),
        ("phantomjs.page.settings.userAgent"@, JVal::Str(user_agent@)),
    ];
    proof {
        assert(jv_fields(inner@, inner@.len() as int) =~= inner_model);
    }
    let inner_val = JsonValue::Obj(inner);
    let mut outer: Vec<(String, JsonValue)> = Vec::new();
    let ghost p0 = outer@;
    let key0 = "desiredCapabilities".to_owned();
    proof {
        lemma_jv_fields_push(p0, key0, inner_val);
    }
    outer.push((key0, inner_val));
    proof {
        assert(jv_fields(outer@, outer@.len() as int) =~= seq![
            ("desiredCapabilities"@, JVal::Obj(inner_model)),
        ]);
    }
    let body_val = JsonValue::Obj(outer);
    let body = to_text(&body_val);
    let mut u = String::new();
    u.append("http://");
    u.append(host);
    u.append(":");
    u.append(port);
    u.append("/session");
    proof {
        assert(u@ =~= session_root(host@, port@));
    }
    HttpRequest { method: HttpMethod::Post, url: u, body: Some(body) }
}

/// Reads the envelope frame of a decoded response: its `sessionId` and
/// `status`, provided some `value` is present as well.
fn env_check(v: &JsonValue) -> (r: Option<(String, i64)>)
    ensures
        match r {
            Some(p) => env_session_id(jv(*v)) == Some(p.0@) && env_status(jv(*v)) == Some(
                p.1 as int,
            ) && env_value(jv(*v)) is Some,
            None => !env_ok(jv(*v)),
        },
{
    match v {
        JsonValue::Obj(fields) => {
            let sid: String = match obj_find(fields, "sessionId") {
                Some(JsonValue::Str(s)) => s.clone(),
                _ => {
                    return None;
                },
            };
            let status: i64 = match obj_find(fields, "status") {
                Some(JsonValue::Int(i)) => *i,
                _ => {
                    return None;
                },
            };
            match obj_find(fields, "value") {
                Some(_) => Some((sid, status)),
                None => None,
            }
        },
        _ => None,
    }
}

/// Reads a session-creation response: the new session's handle, owning the
/// `sessionId` the server assigned. Any body that does not parse to an
/// envelope is a protocol failure and no handle is produced.
pub fn get_session(host: String, port: String, response_body: &str) -> (r: Result<
    PhantomJSSession,
    ClientError,
>)
    ensures
        (match sp_json(response_body@) {
            Some(env) => {
                if env_ok(env) {
                    r matches Ok(h) && h.host@ == host@ && h.port@ == port@ && env_session_id(env)
                        == Some(h.session_id@)
                } else {
                    r == Err::<PhantomJSSession, ClientError>(ClientError::Protocol)
                }
            },
            None => r == Err::<PhantomJSSession, ClientError>(ClientError::Protocol),
        }),
{
    match parse_json(response_body) {
        Some(v) => match env_check(&v) {
            Some(p) => Ok(PhantomJSSession { host, port, session_id: p.0 }),
            None => Err(ClientError::Protocol),
        },
        None => Err(ClientError::Protocol),
    }
}

/// Reads a script-execution response: exactly the envelope's `value`, which
/// must be a string; anything else is a protocol failure.
pub fn execute_script_value(response_body: &str) -> (r: Result<String, ClientError>)
    ensures
        (match sp_json(response_body@) {
            Some(env) => (match env_value(env) {
                Some(JVal::Str(s)) => {
                    if env_ok(env) {
                        r matches Ok(out) && out@ == s
                    } else {
                        r == Err::<String, ClientError>(ClientError::Protocol)
                    }
                },
                _ => r == Err::<String, ClientError>(ClientError::Protocol),
            }),
            None => r == Err::<String, ClientError>(ClientError::Protocol),
        }),
{
    match parse_json(response_body) {
        Some(v) => match env_check(&v) {
            Some(_) => {
                match v {
                    JsonValue::Obj(fields) => match obj_find(&fields, "value") {
                        Some(JsonValue::Str(s)) => Ok(s.clone()),
                        _ => Err(ClientError::Protocol),
                    },
                    _ => Err(ClientError::Protocol),
                }
            },
            None => Err(ClientError::Protocol),
        },
        None => Err(ClientError::Protocol),
    }
}


/// The envelope of a cookie-listing response, decoded: the
/// `{sessionId, status, value}` frame with the cookie records it carries.
#[allow(non_snake_case)]
#[derive(Debug)]
pub struct ValueCookieJSONObject {
    pub sessionId: String,
    pub status: i64,
    pub value: Vec<CookieJSONObject>,
}

/// The cookies an array of JSON values denotes, in order; `None` as soon as
/// one element does not fit the cookie shape.
pub open spec fn cookies_of(a: Seq<JVal>, n: int) -> Option<Seq<CookieModel>>
    decreases n,
{
    if n <= 0 {
        Some(Seq::empty())
    } else {
        match (cookies_of(a, n - 1), cookie_of_jval(a[n - 1])) {
            (Some(s), Some(c)) => Some(s.push(c)),
            _ => None,
        }
    }
}

proof fn lemma_cookies_of_none(a: Seq<JVal>, j: int, m: int)
    requires
        0 <= j <= m,
        cookies_of(a, j) is None,
    ensures
        cookies_of(a, m) is None,
    decreases m - j,
{
    if m > j {
        lemma_cookies_of_none(a, j, m - 1);
    }
}

/// Reads a cookie-listing response: the decoded envelope, whose `value`
/// holds the server's cookies in the order the server sent them.
#[verifier::loop_isolation(false)]
pub fn decode_cookie_envelope(response_body: &str) -> (r: Result<
    ValueCookieJSONObject,
    ClientError,
>)
    ensures
        (match sp_json(response_body@) {
            Some(env) => (match env_value(env) {
                Some(JVal::Arr(a)) => (match cookies_of(a, a.len() as int) {
                    Some(ms) => {
                        if env_ok(env) {
                            r matches Ok(o) && env_session_id(env) == Some(o.sessionId@)
                                && env_status(env) == Some(o.status as int) && o.value@.len()
                                == ms.len() && (forall|i: int|
                                0 <= i < ms.len() ==> (#[trigger] o.value@[i])@ == ms[i])
                        } else {
                            r == Err::<ValueCookieJSONObject, ClientError>(ClientError::Protocol)
                        }
                    },
                    None => r == Err::<ValueCookieJSONObject, ClientError>(ClientError::Protocol),
                }),
                _ => r == Err::<ValueCookieJSONObject, ClientError>(ClientError::Protocol),
            }),
            None => r == Err::<ValueCookieJSONObject, ClientError>(ClientError::Protocol),
        }),
{
    match parse_json(response_body) {
        Some(v) => match env_check(&v) {
            Some(p) => {
                match &v {
                    JsonValue::Obj(fields) => match obj_find(fields, "value") {
                        Some(JsonValue::Arr(arr)) => {
                            let ghost a = crate::json::jv_seq(arr@, arr@.len() as int);
                            proof {
                                lemma_jv_seq(arr@, arr@.len() as int);
                            }
                            let n = arr.len();
                            let mut out: Vec<CookieJSONObject> = Vec::new();
                            let mut k: usize = 0;
                            while k < n
                                invariant
                                    n == arr@.len(),
                                    k <= n,
                                    out@.len() == k,
                                    a == crate::json::jv_seq(arr@, arr@.len() as int),
                                    a.len() == n,
                                    forall|i: int| 0 <= i < n ==> a[i] == jv(arr@[i]),
                                    cookies_of(a, k as int) matches Some(ms) && ms.len() == k
                                        && (forall|i: int|
                                        0 <= i < k ==> ms[i] == (#[trigger] out@[i])@),
                                decreases n - k,
                            {
                                match cookie_from_json(&arr[k]) {
                                    Some(c) => {
                                        out.push(c);
                                    },
                                    None => {
                                        proof {
                                            lemma_cookies_of_none(a, k + 1, a.len() as int);
                                        }
                                        return Err(ClientError::Protocol);
                                    },
                                }
                                k = k + 1;
                            }
                            Ok(ValueCookieJSONObject { sessionId: p.0, status: p.1, value: out })
                        },
                        _ => Err(ClientError::Protocol),
                    },
                    _ => Err(ClientError::Protocol),
                }
            },
            None => Err(ClientError::Protocol),
        },
        None => Err(ClientError::Protocol),
    }
}

/// What base64 decoding yields on a text: some byte sequence, or nothing
/// where the text is not well-formed base64.
pub uninterp spec fn base64_decode_of(s: Seq<char>) -> Option<Seq<u8>>;

/// Relies on rustc_serialize's `FromBase64` for `str`: the outcome is a
/// function of the input characters alone — the decoded bytes for a
/// well-formed base64 text, an error otherwise.
#[verifier::external_body]
fn from_base64(s: &str) -> (r: Option<Vec<u8>>)
    ensures
        match r {
            Some(b) => base64_decode_of(s@) == Some(b@),
            None => base64_decode_of(s@) is None,
        },
{
    match rustc_serialize::base64::FromBase64::from_base64(s) {
        Ok(b) => Some(b),
        Err(_) => None,
    }
}

/// Reads a screenshot response: exactly the bytes that base64-decoding the
/// envelope's `value` yields. A body that is not an envelope with a string
/// `value` is a protocol failure; a `value` that is not base64 is an
/// encoding failure.
pub fn screenshot_bytes(response_body: &str) -> (r: Result<Vec<u8>, ClientError>)
    ensures
        (match sp_json(response_body@) {
            Some(env) => (match env_value(env) {
                Some(JVal::Str(s)) => {
                    if env_ok(env) {
                        match base64_decode_of(s) {
                            Some(bytes) => r matches Ok(b) && b@ == bytes,
                            None => r == Err::<Vec<u8>, ClientError>(ClientError::Encoding),
                        }
                    } else {
                        r == Err::<Vec<u8>, ClientError>(ClientError::Protocol)
                    }
                },
                _ => r == Err::<Vec<u8>, ClientError>(ClientError::Protocol),
            }),
            None => r == Err::<Vec<u8>, ClientError>(ClientError::Protocol),
        }),
{
    match parse_json(response_body) {
        Some(v) => match env_check(&v) {
            Some(_) => {
                match &v {
                    JsonValue::Obj(fields) => match obj_find(fields, "value") {
                        Some(JsonValue::Str(s)) => match from_base64(s.as_str()) {
                            Some(bytes) => Ok(bytes),
                            None => Err(ClientError::Encoding),
                        },
                        _ => Err(ClientError::Protocol),
                    },
                    _ => Err(ClientError::Protocol),
                }
            },
            None => Err(ClientError::Protocol),
        },
        None => Err(ClientError::Protocol),
    }
}

/// Whether the first `n` fields all hold string values.
pub open spec fn all_str_values(fs: Seq<(Seq<char>, JVal)>, n: int) -> bool
    decreases n,
{
    if n <= 0 {
        true
    } else {
        all_str_values(fs, n - 1) && fs[n - 1].1 is Str
    }
}

/// Reads a teardown response: the envelope's `value` must be an object
/// mapping strings to strings. Teardown always issues its DELETE; a body
/// that does not fit this shape is reported as a protocol failure, never
/// silently dropped.
#[verifier::loop_isolation(false)]
pub fn check_delete_response(response_body: &str) -> (r: Result<(), ClientError>)
    ensures
        (match sp_json(response_body@) {
            Some(env) => (match env_value(env) {
                Some(JVal::Obj(fs)) => {
                    if env_ok(env) && all_str_values(fs, fs.len() as int) {
                        r == Ok::<(), ClientError>(())
                    } else {
                        r == Err::<(), ClientError>(ClientError::Protocol)
                    }
                },
                _ => r == Err::<(), ClientError>(ClientError::Protocol),
            }),
            None => r == Err::<(), ClientError>(ClientError::Protocol),
        }),
{
    match parse_json(response_body) {
        Some(v) => match env_check(&v) {
            Some(_) => {
                match &v {
                    JsonValue::Obj(fields) => match obj_find(fields, "value") {
                        Some(JsonValue::Obj(inner)) => {
                            let ghost fs = jv_fields(inner@, inner@.len() as int);
                            proof {
                                lemma_jv_fields(inner@, inner@.len() as int);
                            }
                            let n = inner.len();
                            let mut k: usize = 0;
                            while k < n
                                invariant
                                    n == inner@.len(),
                                    k <= n,
                                    fs == jv_fields(inner@, inner@.len() as int),
                                    fs.len() == n,
                                    forall|i: int|
                                        0 <= i < n ==> fs[i] == (inner@[i].0@, jv(inner@[i].1)),
                                    all_str_values(fs, k as int),
                                decreases n - k,
                            {
                                match &inner[k].1 {
                                    JsonValue::Str(_) => {},
                                    _ => {
                                        proof {
                                            lemma_all_str_values_none(fs, k as int, fs.len() as int);
                                        }
                                        return Err(ClientError::Protocol);
                                    },
                                }
                                k = k + 1;
                            }
                            Ok(())
                        },
                        _ => Err(ClientError::Protocol),
                    },
                    _ => Err(ClientError::Protocol),
                }
            },
            None => Err(ClientError::Protocol),
        },
        None => Err(ClientError::Protocol),
    }
}

proof fn lemma_all_str_values_none(fs: Seq<(Seq<char>, JVal)>, j: int, m: int)
    requires
        0 <= j < m <= fs.len(),
        !(fs[j].1 is Str),
    ensures
        !all_str_values(fs, m),
    decreases m - j,
{
    if m > j + 1 {
        lemma_all_str_values_none(fs, j, m - 1);
    }
}


/// Law: the body that navigation sends, read back as a JSON document, is
/// exactly the object `{"url": <url>}`, whatever the url holds.
#[verifier::rlimit(100)]
pub proof fn lemma_navigate_body_decodes(url: Seq<char>)
    ensures
        sp_json(jtext(url_body_jval(url))) == Some(url_body_jval(url)),
{
    let v = url_body_jval(url);
    let key = "url"@;
    let fs = seq![(key, JVal::Str(url))];
    assert(fs.len() == 1);
    assert(fs[0] == (key, JVal::Str(url)));
    let ek = crate::json::esc_upto(key, key.len() as int);
    let eu = crate::json::esc_upto(url, url.len() as int);
    let kn = ek.len() as int;
    let un = eu.len() as int;
    let body = jtext(v);
    assert(crate::json::fields_text(fs, 1) == crate::json::str_text(key) + seq![':']
        + jtext(JVal::Str(url)));
    let pre2 = seq!['{', '"'] + ek;
    assert(body =~= pre2 + seq!['"', ':', '"'] + eu + seq!['"', '}']);
    assert(body.len() == kn + un + 7);
    assert(body[0] == '{');
    assert(body[1] == '"');
    assert(body[2 + kn] == '"');
    assert(body[3 + kn] == ':');
    assert(body[4 + kn] == '"');
    assert(body[5 + kn + un] == '"');
    assert(body[6 + kn + un] == '}');
    assert(!is_ws('{') && !is_ws('"') && !is_ws(':') && !is_ws('}'));
    assert(ws_end(body, 0) == 0);
    assert(ws_end(body, 1) == 1);
    let tail1 = seq![':', '"'] + eu + seq!['"', '}'];
    assert forall|m: int|
        0 <= m < body.len() - 2 implies body.subrange(2, body.len() as int)[m] == (ek
        + seq!['"'] + tail1)[m] by {
        assert(body.subrange(2, body.len() as int)[m] == body[2 + m]);
    }
    assert(body.subrange(2, body.len() as int) =~= ek + seq!['"'] + tail1);
    crate::parse::lemma_sp_str_inverts(body, 2, key, tail1);
    assert(crate::parse::sp_str(body, 2) == Some((key, 3 + kn)));
    assert(ws_end(body, 3 + kn) == 3 + kn);
    assert(ws_end(body, 4 + kn) == 4 + kn);
    let tail2 = seq!['}'];
    assert forall|m: int|
        0 <= m < body.len() - (5 + kn) implies body.subrange(5 + kn, body.len() as int)[m] == (
        eu + seq!['"'] + tail2)[m] by {
        assert(body.subrange(5 + kn, body.len() as int)[m] == body[5 + kn + m]);
    }
    assert(body.subrange(5 + kn, body.len() as int) =~= eu + seq!['"'] + tail2);
    crate::parse::lemma_sp_str_inverts(body, 5 + kn, url, tail2);
    assert(crate::parse::sp_str(body, 5 + kn) == Some((url, 6 + kn + un)));
    assert(crate::parse::sp_value(body, 4 + kn) == Some((JVal::Str(url), 6 + kn + un)));
    assert(ws_end(body, 6 + kn + un) == 6 + kn + un);
    assert(crate::parse::sp_members(body, 1) == Some((seq![(key, JVal::Str(url))], 7 + kn + un)));
    assert(seq![(key, JVal::Str(url))] =~= fs);
    assert(crate::parse::sp_value(body, 0) == Some((v, 7 + kn + un)));
    assert(ws_end(body, 7 + kn + un) == 7 + kn + un);
    assert(sp_json(body) == Some(v));
}

} // verus!
