use mock_server::errors::RegistrationError;
use mock_server::registration::{
    MockServerPayload, MockServerPayloadHttpRequest, MockServerPayloadHttpRequestRequestConfig,
    MockServerPayloadHttpRequestResponseConfig, MockServerPayloadHttpResponse,
    validate_registration_request,
};

fn payload(key: &str, method: &str, status: u16) -> MockServerPayload {
    MockServerPayload {
        http_request: MockServerPayloadHttpRequest {
            method: method.to_string(),
            unique_key: key.to_string(),
            request_config: MockServerPayloadHttpRequestRequestConfig {
                headers: Some(vec![("X-Auth".to_string(), "abc".to_string())]),
                body: None,
            },
        },
        http_response: MockServerPayloadHttpResponse {
            status_code: status,
            response_config: MockServerPayloadHttpRequestResponseConfig {
                headers: Some(vec![("X-Id".to_string(), "1".to_string())]),
                body: Some("ok".to_string()),
            },
        },
    }
}

#[test]
fn key_of_four_code_points_is_too_short() {
    let r = validate_registration_request(&payload("abcd", "GET", 200));
    assert_eq!(r, Err(RegistrationError::UniqueKeyTooShort { actual_length: 4 }));
}

#[test]
fn empty_key_is_too_short() {
    let r = validate_registration_request(&payload("", "GET", 200));
    assert_eq!(r, Err(RegistrationError::UniqueKeyTooShort { actual_length: 0 }));
}

#[test]
fn key_of_five_code_points_passes() {
    let r = validate_registration_request(&payload("abcde", "GET", 200));
    assert_eq!(r, Ok(()));
}

#[test]
fn non_ascii_key_is_rejected() {
    let r = validate_registration_request(&payload("ordérs", "GET", 200));
    assert_eq!(r, Err(RegistrationError::UniqueKeyNonAscii("ordérs".to_string())));
}

#[test]
fn length_is_checked_before_character_set() {
    // Three code points, even though several bytes: the length rule fires first.
    let r = validate_registration_request(&payload("ééé", "GET", 200));
    assert_eq!(r, Err(RegistrationError::UniqueKeyTooShort { actual_length: 3 }));
}

#[test]
fn status_code_below_100_is_rejected() {
    let r = validate_registration_request(&payload("orders1", "GET", 99));
    assert_eq!(r, Err(RegistrationError::InvalidHttpStatusCode(99)));
}

#[test]
fn status_code_1000_is_rejected() {
    let r = validate_registration_request(&payload("orders1", "GET", 1000));
    assert_eq!(r, Err(RegistrationError::InvalidHttpStatusCode(1000)));
}

#[test]
fn boundary_status_codes_pass() {
    assert_eq!(validate_registration_request(&payload("orders1", "GET", 100)), Ok(()));
    assert_eq!(validate_registration_request(&payload("orders1", "GET", 999)), Ok(()));
}

#[test]
fn unrecognized_method_is_accepted_as_free_text() {
    let r = validate_registration_request(&payload("orders1", "FROB", 200));
    assert_eq!(r, Ok(()));
}

#[test]
fn validation_failures_surface_as_400() {
    let e = RegistrationError::UniqueKeyTooShort { actual_length: 2 };
    assert_eq!(e.http_status(), 400);
    let e = RegistrationError::UniqueKeyNonAscii("ké".to_string());
    assert_eq!(e.http_status(), 400);
    let e = RegistrationError::InvalidHttpStatusCode(0);
    assert_eq!(e.http_status(), 400);
}
