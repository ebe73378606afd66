use mock_server::errors::{ResponseErrors, RegistrationFailure};
use mock_server::headers::{find_header, match_headers};
use mock_server::matcher::{poll_decision, synthesize};
use mock_server::registration::{
    MockServerPayload, MockServerPayloadHttpRequest, MockServerPayloadHttpRequestRequestConfig,
    MockServerPayloadHttpRequestResponseConfig, MockServerPayloadHttpResponse, ResponseSpec,
    validate_registration_request,
};
use mock_server::store::{build_stored_record, register_check_uniqueness, register_commit_outcome};

fn hdrs(pairs: &[(&str, &str)]) -> Vec<(String, String)> {
    pairs.iter().map(|(n, v)| (n.to_string(), v.to_string())).collect()
}

fn orders1_payload() -> MockServerPayload {
    MockServerPayload {
        http_request: MockServerPayloadHttpRequest {
            method: "GET".to_string(),
            unique_key: "orders1".to_string(),
            request_config: MockServerPayloadHttpRequestRequestConfig {
                headers: Some(hdrs(&[("X-Auth", "abc")])),
                body: None,
            },
        },
        http_response: MockServerPayloadHttpResponse {
            status_code: 201,
            response_config: MockServerPayloadHttpRequestResponseConfig {
                headers: Some(hdrs(&[("X-Id", "1")])),
                body: Some("ok".to_string()),
            },
        },
    }
}

#[test]
fn header_names_match_case_insensitively() {
    let template = hdrs(&[("X-Auth", "abc")]);
    let incoming = hdrs(&[("x-AUTH", "abc")]);
    assert_eq!(match_headers(&template, &incoming), Ok(()));
}

#[test]
fn header_values_match_case_sensitively() {
    let template = hdrs(&[("X-Auth", "abc")]);
    let incoming = hdrs(&[("X-Auth", "ABC")]);
    assert_eq!(
        match_headers(&template, &incoming),
        Err(ResponseErrors::HeaderMismatch("X-Auth".to_string()))
    );
}

#[test]
fn missing_template_header_is_reported_by_name() {
    let template = hdrs(&[("X-Auth", "abc"), ("X-Tenant", "t1")]);
    let incoming = hdrs(&[("X-Auth", "abc")]);
    assert_eq!(
        match_headers(&template, &incoming),
        Err(ResponseErrors::MissingHeader("X-Tenant".to_string()))
    );
}

#[test]
fn extra_incoming_headers_are_ignored() {
    let template = hdrs(&[("X-Auth", "abc")]);
    let incoming = hdrs(&[("Accept", "*/*"), ("X-Auth", "abc"), ("X-Trace", "123")]);
    assert_eq!(match_headers(&template, &incoming), Ok(()));
}

#[test]
fn empty_template_accepts_anything() {
    assert_eq!(match_headers(&hdrs(&[]), &hdrs(&[("A", "1")])), Ok(()));
}

#[test]
fn find_header_takes_the_first_match() {
    let incoming = hdrs(&[("x-dup", "first"), ("X-Dup", "second")]);
    assert_eq!(find_header(&incoming, "X-DUP"), Some("first".to_string()));
    assert_eq!(find_header(&incoming, "absent"), None);
}

#[test]
fn full_poll_round_trip_replays_the_registration() {
    let p = orders1_payload();
    assert_eq!(validate_registration_request(&p), Ok(()));
    let rec = build_stored_record(&p);
    let r = poll_decision(
        true,
        &Some(rec.request_method.clone()),
        &Some(rec.request_config.clone()),
        &Some(rec.response_config.clone()),
        "GET",
        &hdrs(&[("X-Auth", "abc")]),
    );
    let wire = r.unwrap();
    assert_eq!(wire.status, 201);
    assert_eq!(wire.headers, hdrs(&[("X-Id", "1")]));
    assert_eq!(wire.body, "ok");
}

#[test]
fn poll_with_extra_headers_still_succeeds() {
    let p = orders1_payload();
    let rec = build_stored_record(&p);
    let r = poll_decision(
        true,
        &Some(rec.request_method.clone()),
        &Some(rec.request_config.clone()),
        &Some(rec.response_config.clone()),
        "GET",
        &hdrs(&[("X-Auth", "abc"), ("User-Agent", "curl"), ("Accept", "*/*")]),
    );
    assert_eq!(r.unwrap().status, 201);
}

#[test]
fn poll_with_wrong_header_value_yields_400() {
    let p = orders1_payload();
    let rec = build_stored_record(&p);
    let r = poll_decision(
        true,
        &Some(rec.request_method.clone()),
        &Some(rec.request_config.clone()),
        &Some(rec.response_config.clone()),
        "GET",
        &hdrs(&[("X-Auth", "wrong")]),
    );
    let e = r.unwrap_err();
    assert_eq!(e, ResponseErrors::HeaderMismatch("X-Auth".to_string()));
    assert_eq!(e.http_status(), 400);
}

#[test]
fn poll_with_missing_header_yields_404() {
    let p = orders1_payload();
    let rec = build_stored_record(&p);
    let r = poll_decision(
        true,
        &Some(rec.request_method.clone()),
        &Some(rec.request_config.clone()),
        &Some(rec.response_config.clone()),
        "GET",
        &hdrs(&[("Other", "x")]),
    );
    let e = r.unwrap_err();
    assert_eq!(e, ResponseErrors::MissingHeader("X-Auth".to_string()));
    assert_eq!(e.http_status(), 404);
}

#[test]
fn poll_with_wrong_method_yields_405() {
    let p = orders1_payload();
    let rec = build_stored_record(&p);
    let r = poll_decision(
        true,
        &Some(rec.request_method.clone()),
        &Some(rec.request_config.clone()),
        &Some(rec.response_config.clone()),
        "POST",
        &hdrs(&[("X-Auth", "abc")]),
    );
    let e = r.unwrap_err();
    assert_eq!(
        e,
        ResponseErrors::MethodNotAllowed {
            expected: "GET".to_string(),
            actual: "POST".to_string()
        }
    );
    assert_eq!(e.http_status(), 405);
}

#[test]
fn method_comparison_is_case_sensitive() {
    let p = orders1_payload();
    let rec = build_stored_record(&p);
    let r = poll_decision(
        true,
        &Some(rec.request_method.clone()),
        &Some(rec.request_config.clone()),
        &Some(rec.response_config.clone()),
        "get",
        &hdrs(&[("X-Auth", "abc")]),
    );
    assert!(matches!(r.unwrap_err(), ResponseErrors::MethodNotAllowed { .. }));
}

#[test]
fn poll_on_unknown_key_yields_404() {
    let r = poll_decision(false, &None, &None, &None, "GET", &hdrs(&[]));
    let e = r.unwrap_err();
    assert_eq!(e, ResponseErrors::NotFound);
    assert_eq!(e.http_status(), 404);
}

#[test]
fn key_present_without_method_field_is_an_inconsistency() {
    let r = poll_decision(true, &None, &None, &None, "GET", &hdrs(&[]));
    let e = r.unwrap_err();
    assert_eq!(e, ResponseErrors::BackendInconsistency);
    assert_eq!(e.http_status(), 500);
}

#[test]
fn undecodable_stored_template_is_an_inconsistency() {
    let r = poll_decision(
        true,
        &Some("GET".to_string()),
        &Some("not json at all".to_string()),
        &Some("ignored".to_string()),
        "GET",
        &hdrs(&[]),
    );
    assert_eq!(r.unwrap_err(), ResponseErrors::BackendInconsistency);
}

#[test]
fn template_without_header_map_is_missing_information() {
    let r = poll_decision(
        true,
        &Some("GET".to_string()),
        &Some(r#"{"headers":null,"body":null}"#.to_string()),
        &Some("ignored".to_string()),
        "GET",
        &hdrs(&[]),
    );
    let e = r.unwrap_err();
    assert_eq!(e, ResponseErrors::MissingInformation);
    assert_eq!(e.http_status(), 500);
}

#[test]
fn absent_response_field_is_an_inconsistency() {
    let r = poll_decision(
        true,
        &Some("GET".to_string()),
        &Some(r#"{"headers":{},"body":null}"#.to_string()),
        &None,
        "GET",
        &hdrs(&[]),
    );
    assert_eq!(r.unwrap_err(), ResponseErrors::BackendInconsistency);
}

#[test]
fn synthesize_copies_the_reply_verbatim() {
    let spec = ResponseSpec {
        status_code: 299,
        headers: hdrs(&[("A", "1"), ("B", "2")]),
        body: "payload".to_string(),
    };
    let wire = synthesize(&spec);
    assert_eq!(wire.status, 299);
    assert_eq!(wire.headers, spec.headers);
    assert_eq!(wire.body, spec.body);
}

#[test]
fn existing_key_is_a_conflict_before_any_write() {
    let r = register_check_uniqueness(true);
    let e = r.unwrap_err();
    assert_eq!(e, RegistrationFailure::KeyAlreadyExists);
    assert_eq!(e.http_status(), 405);
    assert_eq!(register_check_uniqueness(false), Ok(()));
}

#[test]
fn registration_commits_only_when_every_field_is_newly_set() {
    assert_eq!(register_commit_outcome(true, true, true), Ok(()));
    for (a, b, c) in [
        (false, true, true),
        (true, false, true),
        (true, true, false),
        (false, false, false),
    ] {
        let e = register_commit_outcome(a, b, c).unwrap_err();
        assert_eq!(e, RegistrationFailure::KeyAlreadyExists);
        assert_eq!(e.http_status(), 405);
    }
}

#[test]
fn stored_record_carries_the_raw_method_and_both_encodings() {
    let p = orders1_payload();
    let rec = build_stored_record(&p);
    assert_eq!(rec.request_method, "GET");
    assert_eq!(rec.request_config, r#"{"headers":{"X-Auth":"abc"},"body":null}"#);
    assert_eq!(
        rec.response_config,
        r#"{"status_code":201,"headers":{"X-Id":"1"},"body":"ok"}"#
    );
}

#[test]
fn payload_without_response_fields_stores_empty_reply_parts() {
    let mut p = orders1_payload();
    p.http_response.response_config.headers = None;
    p.http_response.response_config.body = None;
    let rec = build_stored_record(&p);
    assert_eq!(rec.response_config, r#"{"status_code":201,"headers":{},"body":""}"#);
    let r = poll_decision(
        true,
        &Some(rec.request_method.clone()),
        &Some(rec.request_config.clone()),
        &Some(rec.response_config.clone()),
        "GET",
        &hdrs(&[("X-Auth", "abc")]),
    );
    let wire = r.unwrap();
    assert_eq!(wire.status, 201);
    assert_eq!(wire.headers, hdrs(&[]));
    assert_eq!(wire.body, "");
}
