use mock_server::codec::{
    encode_request_config, encode_response_spec, parse_request_config, parse_response_spec,
};
use mock_server::registration::{MockServerPayloadHttpRequestRequestConfig, ResponseSpec};

fn config(
    headers: Option<Vec<(&str, &str)>>,
    body: Option<&str>,
) -> MockServerPayloadHttpRequestRequestConfig {
    MockServerPayloadHttpRequestRequestConfig {
        headers: headers.map(|hs| {
            hs.into_iter().map(|(n, v)| (n.to_string(), v.to_string())).collect()
        }),
        body: body.map(|b| b.to_string()),
    }
}

#[test]
fn request_config_encodes_to_exact_json() {
    let c = config(Some(vec![("X-Auth", "abc")]), None);
    assert_eq!(encode_request_config(&c), r#"{"headers":{"X-Auth":"abc"},"body":null}"#);
}

#[test]
fn absent_headers_and_body_encode_as_null() {
    let c = config(None, None);
    assert_eq!(encode_request_config(&c), r#"{"headers":null,"body":null}"#);
}

#[test]
fn empty_header_map_encodes_as_empty_object() {
    let c = config(Some(vec![]), Some("payload"));
    assert_eq!(encode_request_config(&c), r#"{"headers":{},"body":"payload"}"#);
}

#[test]
fn several_headers_keep_their_order() {
    let c = config(Some(vec![("A", "1"), ("B", "2"), ("C", "3")]), None);
    assert_eq!(
        encode_request_config(&c),
        r#"{"headers":{"A":"1","B":"2","C":"3"},"body":null}"#
    );
}

#[test]
fn quotes_backslashes_and_controls_are_escaped() {
    let c = config(Some(vec![("quo\"te", "back\\slash")]), Some("line\nbreak\ttab"));
    assert_eq!(
        encode_request_config(&c),
        "{\"headers\":{\"quo\\\"te\":\"back\\\\slash\"},\"body\":\"line\\u000abreak\\u0009tab\"}"
    );
}

#[test]
fn encoded_request_config_is_real_json() {
    let c = config(Some(vec![("X-Auth", "a\"b\\c\u{1}")]), Some("bo\ndy"));
    let encoded = encode_request_config(&c);
    let v: serde_json::Value = serde_json::from_str(&encoded).unwrap();
    assert_eq!(v["headers"]["X-Auth"], "a\"b\\c\u{1}");
    assert_eq!(v["body"], "bo\ndy");
}

#[test]
fn request_config_round_trips() {
    let c = config(Some(vec![("X-Auth", "a\"b\\c\u{1f}"), ("Other", "")]), Some("bo\u{0}dy"));
    let parsed = parse_request_config(&encode_request_config(&c)).unwrap();
    assert_eq!(parsed.headers, c.headers);
    assert_eq!(parsed.body, c.body);
}

#[test]
fn null_round_trips() {
    let c = config(None, None);
    let parsed = parse_request_config(&encode_request_config(&c)).unwrap();
    assert_eq!(parsed.headers, None);
    assert_eq!(parsed.body, None);
}

#[test]
fn non_canonical_request_configs_are_rejected() {
    assert!(parse_request_config("").is_none());
    assert!(parse_request_config("{}").is_none());
    assert!(parse_request_config(r#"{"headers":{},"body":null"#).is_none());
    assert!(parse_request_config(r#"{"headers":{},"body":null}}"#).is_none());
    assert!(parse_request_config(r#"{"headers":{"a":"b",},"body":null}"#).is_none());
    assert!(parse_request_config(r#"{"headers": {},"body":null}"#).is_none());
    assert!(parse_request_config(r#"{"body":null,"headers":{}}"#).is_none());
    // Upper-case hex in an escape is not what the encoder writes.
    assert!(parse_request_config("{\"headers\":{},\"body\":\"\\u000A\"}").is_none());
    // An escape of a non-control character is not canonical either.
    assert!(parse_request_config("{\"headers\":{},\"body\":\"\\u0041\"}").is_none());
    // A raw control character never appears unescaped.
    assert!(parse_request_config("{\"headers\":{},\"body\":\"a\u{1}b\"}").is_none());
}

#[test]
fn response_spec_encodes_to_exact_json() {
    let r = ResponseSpec {
        status_code: 201,
        headers: vec![("X-Id".to_string(), "1".to_string())],
        body: "ok".to_string(),
    };
    assert_eq!(
        encode_response_spec(&r),
        r#"{"status_code":201,"headers":{"X-Id":"1"},"body":"ok"}"#
    );
}

#[test]
fn response_spec_round_trips() {
    let r = ResponseSpec {
        status_code: 503,
        headers: vec![("Retry-After".to_string(), "30".to_string())],
        body: "try \"later\"\n".to_string(),
    };
    let parsed = parse_response_spec(&encode_response_spec(&r)).unwrap();
    assert_eq!(parsed.status_code, 503);
    assert_eq!(parsed.headers, r.headers);
    assert_eq!(parsed.body, r.body);
}

#[test]
fn non_canonical_response_specs_are_rejected() {
    assert!(parse_response_spec("").is_none());
    assert!(parse_response_spec(r#"{"status_code":099,"headers":{},"body":""}"#).is_none());
    assert!(parse_response_spec(r#"{"status_code":20,"headers":{},"body":""}"#).is_none());
    assert!(parse_response_spec(r#"{"status_code":201,"headers":null,"body":""}"#).is_none());
    assert!(parse_response_spec(r#"{"status_code":201,"headers":{},"body":null}"#).is_none());
    assert!(parse_response_spec(r#"{"status_code":2000,"headers":{},"body":""}"#).is_none());
}

#[test]
fn encoded_response_spec_is_real_json() {
    let r = ResponseSpec {
        status_code: 404,
        headers: vec![("X-Why".to_string(), "no\\such".to_string())],
        body: "gone".to_string(),
    };
    let encoded = encode_response_spec(&r);
    let v: serde_json::Value = serde_json::from_str(&encoded).unwrap();
    assert_eq!(v["status_code"], 404);
    assert_eq!(v["headers"]["X-Why"], "no\\such");
    assert_eq!(v["body"], "gone");
}
