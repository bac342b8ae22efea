use ghostdriver_client::json::JsonValue;
use ghostdriver_client::parse::parse_json;
use ghostdriver_client::json::to_text;
use ghostdriver_client::cookie_record::CookieJSONObject;
use ghostdriver_client::cookie_record::cookie_from_json;
use ghostdriver_client::cookie_record::cookie_to_json;
use ghostdriver_client::session::HttpMethod;
use ghostdriver_client::session::PhantomJSSession;
use ghostdriver_client::session::check_delete_response;
use ghostdriver_client::session::create_session_request;
use ghostdriver_client::session::decode_cookie_envelope;
use ghostdriver_client::session::execute_script_value;
use ghostdriver_client::session::screenshot_bytes;
use ghostdriver_client::ClientError;
use ghostdriver_client::get_session;

fn sample_session() -> PhantomJSSession {
    PhantomJSSession {
        host: "localhost".to_owned(),
        port: "8910".to_owned(),
        session_id: "abc-123".to_owned(),
    }
}

#[test]
fn encodes_simple_object() {
    let v = JsonValue::Obj(vec![
        ("url".to_owned(), JsonValue::Str("http://google.com".to_owned())),
    ]);
    assert_eq!(to_text(&v), "{\"url\":\"http://google.com\"}");
}

#[test]
fn encodes_nested_values() {
    let v = JsonValue::Obj(vec![
        ("a".to_owned(), JsonValue::Arr(vec![
            JsonValue::Int(-7),
            JsonValue::Bool(true),
            JsonValue::Null,
        ])),
        ("b".to_owned(), JsonValue::Int(0)),
    ]);
    assert_eq!(to_text(&v), "{\"a\":[-7,true,null],\"b\":0}");
}

#[test]
fn encodes_string_escapes() {
    let v = JsonValue::Str("a\"b\\c\nd\te\u{0001}".to_owned());
    assert_eq!(to_text(&v), "\"a\\\"b\\\\c\\nd\\te\\u0001\"");
}

#[test]
fn parses_what_it_encodes() {
    let v = JsonValue::Obj(vec![
        ("name".to_owned(), JsonValue::Str("k\u{00e9}y".to_owned())),
        ("count".to_owned(), JsonValue::Int(42)),
        ("items".to_owned(), JsonValue::Arr(vec![JsonValue::Str("x".to_owned())])),
    ]);
    let text = to_text(&v);
    assert_eq!(parse_json(&text), Some(v));
}

#[test]
fn parses_with_whitespace_and_escapes() {
    let text = " { \"k\" : [ 1 , \"a\\u0041\\n\" , false ] } ";
    let expected = JsonValue::Obj(vec![
        ("k".to_owned(), JsonValue::Arr(vec![
            JsonValue::Int(1),
            JsonValue::Str("aA\n".to_owned()),
            JsonValue::Bool(false),
        ])),
    ]);
    assert_eq!(parse_json(text), Some(expected));
}

#[test]
fn parses_empty_containers() {
    assert_eq!(parse_json("[]"), Some(JsonValue::Arr(vec![])));
    assert_eq!(parse_json("{}"), Some(JsonValue::Obj(vec![])));
}

#[test]
fn rejects_malformed_documents() {
    assert_eq!(parse_json(""), None);
    assert_eq!(parse_json("{"), None);
    assert_eq!(parse_json("[1,]"), None);
    assert_eq!(parse_json("\"unterminated"), None);
    assert_eq!(parse_json("tru"), None);
    assert_eq!(parse_json("1 2"), None);
    assert_eq!(parse_json("1.5"), None);
    assert_eq!(parse_json("12345678901234567890"), None);
    assert_eq!(parse_json("\"\\q\""), None);
    assert_eq!(parse_json("\"\\ud800\""), None);
}

#[test]
fn parses_negative_numbers() {
    assert_eq!(parse_json("-12"), Some(JsonValue::Int(-12)));
    assert_eq!(parse_json("0"), Some(JsonValue::Int(0)));
}

#[test]
fn cookie_round_trips_with_all_fields() {
    let c = CookieJSONObject {
        name: "foo".to_owned(),
        value: "bar".to_owned(),
        path: Some("/".to_owned()),
        domain: Some("example.org".to_owned()),
        secure: Some(true),
        httpOnly: Some(false),
        expiry: Some(1700000000),
    };
    let wire = cookie_to_json(&c);
    assert_eq!(cookie_from_json(&wire), Some(c));
}

#[test]
fn cookie_round_trips_with_absent_fields() {
    let c = CookieJSONObject {
        name: "foo".to_owned(),
        value: "bar".to_owned(),
        path: None,
        domain: None,
        secure: None,
        httpOnly: None,
        expiry: None,
    };
    let wire = cookie_to_json(&c);
    match &wire {
        JsonValue::Obj(fields) => assert_eq!(fields.len(), 2),
        _ => panic!("cookie wire shape is not an object"),
    }
    let text = to_text(&wire);
    assert_eq!(text, "{\"name\":\"foo\",\"value\":\"bar\"}");
    let reread = parse_json(&text).expect("cookie wire text must parse");
    assert_eq!(cookie_from_json(&reread), Some(c));
}

#[test]
fn cookie_decode_treats_null_as_absent() {
    let text = "{\"name\":\"n\",\"value\":\"v\",\"path\":null,\"httpOnly\":true}";
    let v = parse_json(text).unwrap();
    let c = cookie_from_json(&v).unwrap();
    assert_eq!(c.path, None);
    assert_eq!(c.domain, None);
    assert_eq!(c.httpOnly, Some(true));
}

#[test]
fn cookie_decode_rejects_wrong_types() {
    let v = parse_json("{\"name\":\"n\",\"value\":7}").unwrap();
    assert_eq!(cookie_from_json(&v), None);
    let v2 = parse_json("{\"name\":\"n\",\"value\":\"v\",\"expiry\":\"soon\"}").unwrap();
    assert_eq!(cookie_from_json(&v2), None);
}

#[test]
fn jump_to_url_builds_one_post() {
    let s = sample_session();
    let r = s.jump_to_url("http://google.com");
    assert_eq!(r.method, HttpMethod::Post);
    assert_eq!(r.url, "http://localhost:8910/session/abc-123/url");
    let body = r.body.expect("navigation carries a body");
    assert_eq!(
        parse_json(&body),
        Some(JsonValue::Obj(vec![
            ("url".to_owned(), JsonValue::Str("http://google.com".to_owned())),
        ]))
    );
}

#[test]
fn execute_script_builds_script_body() {
    let s = sample_session();
    let r = s.execute_script("return 1;");
    assert_eq!(r.method, HttpMethod::Post);
    assert_eq!(r.url, "http://localhost:8910/session/abc-123/execute");
    assert_eq!(r.body.as_deref(), Some("{\"script\":\"return 1;\",\"args\":[]}"));
}

#[test]
fn set_cookies_issues_one_post_per_cookie_in_order() {
    let s = sample_session();
    let c1 = CookieJSONObject {
        name: "first".to_owned(),
        value: "1".to_owned(),
        path: None,
        domain: None,
        secure: None,
        httpOnly: None,
        expiry: None,
    };
    let c2 = CookieJSONObject {
        name: "second".to_owned(),
        value: "2".to_owned(),
        path: Some("/p".to_owned()),
        domain: None,
        secure: Some(false),
        httpOnly: None,
        expiry: Some(5),
    };
    let rs = s.set_cookies(&vec![c1, c2]);
    assert_eq!(rs.len(), 2);
    for r in &rs {
        assert_eq!(r.method, HttpMethod::Post);
        assert_eq!(r.url, "http://localhost:8910/session/abc-123/cookie");
    }
    assert_eq!(
        rs[0].body.as_deref(),
        Some("{\"cookie\":{\"name\":\"first\",\"value\":\"1\"}}")
    );
    assert_eq!(
        rs[1].body.as_deref(),
        Some("{\"cookie\":{\"name\":\"second\",\"value\":\"2\",\"path\":\"/p\",\"secure\":false,\"expiry\":5}}")
    );
}

#[test]
fn get_cookies_and_screenshot_are_gets() {
    let s = sample_session();
    let rc = s.get_cookies();
    assert_eq!(rc.method, HttpMethod::Get);
    assert_eq!(rc.url, "http://localhost:8910/session/abc-123/cookie");
    assert!(rc.body.is_none());
    let rs = s.capture_screenshot();
    assert_eq!(rs.method, HttpMethod::Get);
    assert_eq!(rs.url, "http://localhost:8910/session/abc-123/screenshot");
    assert!(rs.body.is_none());
}

#[test]
fn teardown_is_one_delete_to_the_session() {
    let s = sample_session();
    let r = s.teardown();
    assert_eq!(r.method, HttpMethod::Delete);
    assert_eq!(r.url, "http://localhost:8910/session/abc-123");
    assert!(r.body.is_none());
}

#[test]
fn create_session_request_carries_capabilities() {
    let r = create_session_request("localhost", "8910", "AgentSmith/1.0");
    assert_eq!(r.method, HttpMethod::Post);
    assert_eq!(r.url, "http://localhost:8910/session");
    let expected = "{\"desiredCapabilities\":{\"platform\":\"ANY\",\"browserName\":\"phantomjs\",\"version\":\"\",\"phantomjs.page.settings.userAgent\":\"AgentSmith/1.0\"}}";
    assert_eq!(r.body.as_deref(), Some(expected));
}

#[test]
fn get_session_takes_id_from_envelope() {
    let body = "{\"sessionId\":\"xyz-9\",\"status\":0,\"value\":{}}";
    let s = get_session("h".to_owned(), "1".to_owned(), body).expect("creation must succeed");
    assert_eq!(s.host, "h");
    assert_eq!(s.port, "1");
    assert_eq!(s.session_id, "xyz-9");
}

#[test]
fn get_session_rejects_bad_envelopes() {
    assert_eq!(
        get_session("h".to_owned(), "1".to_owned(), "not json").unwrap_err(),
        ClientError::Protocol
    );
    assert_eq!(
        get_session("h".to_owned(), "1".to_owned(), "{\"status\":0,\"value\":{}}").unwrap_err(),
        ClientError::Protocol
    );
}

#[test]
fn execute_script_value_is_the_envelope_value() {
    let body = "{\"sessionId\":\"s\",\"status\":0,\"value\":\"it ran\"}";
    assert_eq!(execute_script_value(body).unwrap(), "it ran");
    let not_a_string = "{\"sessionId\":\"s\",\"status\":0,\"value\":3}";
    assert_eq!(execute_script_value(not_a_string).unwrap_err(), ClientError::Protocol);
}

#[test]
fn decode_cookie_envelope_keeps_order_and_fields() {
    let body = "{\"sessionId\":\"s\",\"status\":0,\"value\":[{\"name\":\"a\",\"value\":\"1\",\"domain\":\"d\"},{\"name\":\"b\",\"value\":\"2\",\"secure\":true,\"expiry\":9}]}";
    let env = decode_cookie_envelope(body).expect("listing must decode");
    assert_eq!(env.sessionId, "s");
    assert_eq!(env.status, 0);
    assert_eq!(env.value.len(), 2);
    assert_eq!(env.value[0].name, "a");
    assert_eq!(env.value[0].value, "1");
    assert_eq!(env.value[0].domain.as_deref(), Some("d"));
    assert_eq!(env.value[0].secure, None);
    assert_eq!(env.value[1].name, "b");
    assert_eq!(env.value[1].secure, Some(true));
    assert_eq!(env.value[1].expiry, Some(9));
}

#[test]
fn decode_cookie_envelope_rejects_bad_entries() {
    let body = "{\"sessionId\":\"s\",\"status\":0,\"value\":[{\"name\":\"a\"}]}";
    assert_eq!(decode_cookie_envelope(body).unwrap_err(), ClientError::Protocol);
}

#[test]
fn screenshot_bytes_decodes_base64() {
    let body = "{\"sessionId\":\"s\",\"status\":0,\"value\":\"aGVsbG8=\"}";
    assert_eq!(screenshot_bytes(body).unwrap(), b"hello".to_vec());
}

#[test]
fn screenshot_bytes_flags_bad_base64_as_encoding() {
    let body = "{\"sessionId\":\"s\",\"status\":0,\"value\":\"@@@not base64@@@\"}";
    assert_eq!(screenshot_bytes(body).unwrap_err(), ClientError::Encoding);
}

#[test]
fn screenshot_bytes_flags_bad_envelope_as_protocol() {
    let body = "{\"sessionId\":\"s\",\"status\":0,\"value\":[]}";
    assert_eq!(screenshot_bytes(body).unwrap_err(), ClientError::Protocol);
}

#[test]
fn check_delete_response_wants_string_map() {
    let ok = "{\"sessionId\":\"s\",\"status\":0,\"value\":{\"state\":\"success\"}}";
    assert!(check_delete_response(ok).is_ok());
    let empty = "{\"sessionId\":\"s\",\"status\":0,\"value\":{}}";
    assert!(check_delete_response(empty).is_ok());
    let bad = "{\"sessionId\":\"s\",\"status\":0,\"value\":{\"n\":3}}";
    assert_eq!(check_delete_response(bad).unwrap_err(), ClientError::Protocol);
    assert_eq!(check_delete_response("").unwrap_err(), ClientError::Protocol);
}
