//! The registration payload as a client submits it, and its validation.

use vstd::prelude::*;
use vstd::string::*;
use vstd::utf8::is_ascii_chars;
use crate::errors::RegistrationError;

verus! {

/// The request template of a registration: the headers an incoming request
/// must carry and an optional body.
#[derive(Debug, Clone)]
pub struct MockServerPayloadHttpRequestRequestConfig {
    pub headers: Option<Vec<(String, String)>>,
    pub body: Option<String>,
}

/// Mathematical shape of a request template.
#[verifier::ext_equal]
pub struct RequestConfigV {
    pub headers: Option<Seq<(Seq<char>, Seq<char>)>>,
    pub body: Option<Seq<char>>,
}

impl View for MockServerPayloadHttpRequestRequestConfig {
    type V = RequestConfigV;

    open spec fn view(&self) -> RequestConfigV {
        RequestConfigV { headers: self.headers.deep_view(), body: self.body.deep_view() }
    }
}

/// The canned response of a registration: the headers and body to replay.
#[derive(Debug, Clone)]
pub struct MockServerPayloadHttpRequestResponseConfig {
    pub headers: Option<Vec<(String, String)>>,
    pub body: Option<String>,
}

impl View for MockServerPayloadHttpRequestResponseConfig {
    type V = RequestConfigV;

    open spec fn view(&self) -> RequestConfigV {
        RequestConfigV { headers: self.headers.deep_view(), body: self.body.deep_view() }
    }
}

/// The request half of a registration payload.
#[derive(Debug, Clone)]
pub struct MockServerPayloadHttpRequest {
    pub method: String,
    pub unique_key: String,
    pub request_config: MockServerPayloadHttpRequestRequestConfig,
}

/// Mathematical shape of the request half.
pub struct HttpRequestV {
    pub method: Seq<char>,
    pub unique_key: Seq<char>,
    pub request_config: RequestConfigV,
}

impl View for MockServerPayloadHttpRequest {
    type V = HttpRequestV;

    open spec fn view(&self) -> HttpRequestV {
        HttpRequestV {
            method: self.method@,
            unique_key: self.unique_key@,
            request_config: self.request_config@,
        }
    }
}

/// The response half of a registration payload.
#[derive(Debug, Clone)]
pub struct MockServerPayloadHttpResponse {
    pub status_code: u16,
    pub response_config: MockServerPayloadHttpRequestResponseConfig,
}

/// Mathematical shape of the response half.
pub struct HttpResponseV {
    pub status_code: u16,
    pub response_config: RequestConfigV,
}

impl View for MockServerPayloadHttpResponse {
    type V = HttpResponseV;

    open spec fn view(&self) -> HttpResponseV {
        HttpResponseV { status_code: self.status_code, response_config: self.response_config@ }
    }
}

/// A full registration payload.
#[derive(Debug, Clone)]
pub struct MockServerPayload {
    pub http_request: MockServerPayloadHttpRequest,
    pub http_response: MockServerPayloadHttpResponse,
}

/// Mathematical shape of a full payload.
pub struct PayloadV {
    pub http_request: HttpRequestV,
    pub http_response: HttpResponseV,
}

impl View for MockServerPayload {
    type V = PayloadV;

    open spec fn view(&self) -> PayloadV {
        PayloadV { http_request: self.http_request@, http_response: self.http_response@ }
    }
}

/// The canned reply in its persisted and replayed shape: status code,
/// literal header pairs, and body. A payload whose response configuration
/// omits headers or body is stored with an empty header list or body.
#[derive(Debug, Clone)]
pub struct ResponseSpec {
    pub status_code: u16,
    pub headers: Vec<(String, String)>,
    pub body: String,
}

/// Mathematical shape of a canned reply.
#[verifier::ext_equal]
pub struct ResponseSpecV {
    pub status_code: u16,
    pub headers: Seq<(Seq<char>, Seq<char>)>,
    pub body: Seq<char>,
}

impl View for ResponseSpec {
    type V = ResponseSpecV;

    open spec fn view(&self) -> ResponseSpecV {
        ResponseSpecV {
            status_code: self.status_code,
            headers: self.headers.deep_view(),
            body: self.body@,
        }
    }
}

/// A status code the response line of the wire protocol can carry.
pub open spec fn valid_status_code(code: u16) -> bool {
    100 <= code < 1000
}

/// A unique key must be longer than four code points.
pub open spec fn key_length_ok(key: Seq<char>) -> bool {
    key.len() > 4
}

/// A payload that passes every validation rule: key long enough, key pure
/// ASCII, status code representable.
pub open spec fn valid_payload(p: PayloadV) -> bool {
    &&& key_length_ok(p.http_request.unique_key)
    &&& is_ascii_chars(p.http_request.unique_key)
    &&& valid_status_code(p.http_response.status_code)
}

/// A key of four code points or fewer, or one with any non-ASCII character,
/// never yields a valid payload, so registration stops at validation and
/// nothing reaches the store.
pub proof fn lemma_bad_key_never_validates(p: PayloadV)
    requires
        !key_length_ok(p.http_request.unique_key) || !is_ascii_chars(p.http_request.unique_key),
    ensures
        !valid_payload(p),
{
}

/// Checks a registration payload, short-circuiting on the first broken rule:
/// key length, then key character set, then status code. The request method
/// is deliberately accepted as free text.
pub fn validate_registration_request(request: &MockServerPayload) -> (r: Result<
    (),
    RegistrationError,
>)
    ensures
        match r {
            Ok(()) => valid_payload(request@),
            Err(e) => match e {
                RegistrationError::UniqueKeyTooShort { actual_length } => {
                    &&& !key_length_ok(request@.http_request.unique_key)
                    &&& actual_length == request@.http_request.unique_key.len()
                },
                RegistrationError::UniqueKeyNonAscii(k) => {
                    &&& key_length_ok(request@.http_request.unique_key)
                    &&& !is_ascii_chars(request@.http_request.unique_key)
                    &&& k@ == request@.http_request.unique_key
                },
                RegistrationError::InvalidHttpStatusCode(c) => {
                    &&& key_length_ok(request@.http_request.unique_key)
                    &&& is_ascii_chars(request@.http_request.unique_key)
                    &&& !valid_status_code(request@.http_response.status_code)
                    &&& c == request@.http_response.status_code
                },
            },
        },
{
    let key_len = request.http_request.unique_key.as_str().unicode_len();
    if key_len <= 4 {
        return Err(RegistrationError::UniqueKeyTooShort { actual_length: key_len });
    }
    if !request.http_request.unique_key.is_ascii() {
        return Err(
            RegistrationError::UniqueKeyNonAscii(request.http_request.unique_key.clone()),
        );
    }
    let code = request.http_response.status_code;
    if code < 100 || code >= 1000 {
        return Err(RegistrationError::InvalidHttpStatusCode(code));
    }
    Ok(())
}

} // verus!
