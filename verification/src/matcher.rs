//! The poll decision: an incoming request is held against the stored record
//! field by field, and on a full match the registered reply is synthesized
//! verbatim.

use vstd::prelude::*;
use vstd::string::*;
use crate::codec::{
    parse_request_config, parse_request_config_spec, parse_response_spec,
    parse_response_spec_spec,
};
use crate::errors::{response_error_status, ResponseErrors};
use crate::headers::{check_headers, match_headers, HeaderCheckV};
use crate::registration::{ResponseSpec, ResponseSpecV};
use crate::headers::copy_headers;
use crate::text::str_eq;

verus! {

/// The reply put on the wire: status line, literal header pairs, body.
#[derive(Debug, Clone)]
pub struct WireResponse {
    pub status: u16,
    pub headers: Vec<(String, String)>,
    pub body: String,
}

/// Mathematical shape of a wire reply.
#[verifier::ext_equal]
pub struct WireResponseV {
    pub status: u16,
    pub headers: Seq<(Seq<char>, Seq<char>)>,
    pub body: Seq<char>,
}

impl View for WireResponse {
    type V = WireResponseV;

    open spec fn view(&self) -> WireResponseV {
        WireResponseV {
            status: self.status,
            headers: self.headers.deep_view(),
            body: self.body@,
        }
    }
}

/// Synthesis is a pure copy: the wire reply carries the stored status,
/// headers and body unchanged.
pub open spec fn wire_of(r: ResponseSpecV) -> WireResponseV {
    WireResponseV { status: r.status_code, headers: r.headers, body: r.body }
}

/// Converts a stored reply into the wire reply, copying status code, header
/// pairs and body verbatim; it cannot fail.
pub fn synthesize(r: &ResponseSpec) -> (w: WireResponse)
    ensures
        w@ == wire_of(r@),
{
    let w = WireResponse {
        status: r.status_code,
        headers: copy_headers(&r.headers),
        body: r.body.clone(),
    };
    proof {
        assert(w@ =~= wire_of(r@));
    }
    w
}

/// What a poll yields, mathematically.
pub enum PollOutcomeV {
    Matched(WireResponseV),
    NotFound,
    WrongMethod { expected: Seq<char>, actual: Seq<char> },
    MissingHeader(Seq<char>),
    HeaderMismatch(Seq<char>),
    MissingInformation,
    Inconsistent,
}

/// The poll protocol, step by step: a key with no stored method is unknown
/// (or corrupt if the key itself exists); the method must equal the stored
/// one exactly; the stored template must decode and carry a header map; the
/// incoming headers must satisfy the template; the stored reply must decode,
/// and is then replayed verbatim.
pub open spec fn spec_poll(
    key_exists: bool,
    method_field: Option<Seq<char>>,
    request_field: Option<Seq<char>>,
    response_field: Option<Seq<char>>,
    incoming_method: Seq<char>,
    incoming_headers: Seq<(Seq<char>, Seq<char>)>,
) -> PollOutcomeV {
    match method_field {
        None => if key_exists {
            PollOutcomeV::Inconsistent
        } else {
            PollOutcomeV::NotFound
        },
        Some(m) => if m != incoming_method {
            PollOutcomeV::WrongMethod { expected: m, actual: incoming_method }
        } else {
            match request_field {
                None => PollOutcomeV::Inconsistent,
                Some(rc) => match parse_request_config_spec(rc) {
                    None => PollOutcomeV::Inconsistent,
                    Some(cfg) => match cfg.headers {
                        None => PollOutcomeV::MissingInformation,
                        Some(tpl) => match check_headers(tpl, incoming_headers) {
                            HeaderCheckV::Missing(nm) => PollOutcomeV::MissingHeader(nm),
                            HeaderCheckV::Mismatch(nm) => PollOutcomeV::HeaderMismatch(nm),
                            HeaderCheckV::Matched => match response_field {
                                None => PollOutcomeV::Inconsistent,
                                Some(sc) => match parse_response_spec_spec(sc) {
                                    None => PollOutcomeV::Inconsistent,
                                    Some(rs) => PollOutcomeV::Matched(wire_of(rs)),
                                },
                            },
                        },
                    },
                },
            }
        },
    }
}

/// How an executable poll result must mirror the outcome of `spec_poll`.
pub open spec fn poll_result_matches(
    o: PollOutcomeV,
    r: Result<WireResponse, ResponseErrors>,
) -> bool {
    match o {
        PollOutcomeV::Matched(w) => r matches Ok(x) && x@ == w,
        PollOutcomeV::NotFound => r == Err::<WireResponse, ResponseErrors>(
            ResponseErrors::NotFound,
        ),
        PollOutcomeV::WrongMethod { expected, actual } => r matches Err(
            ResponseErrors::MethodNotAllowed { expected: e, actual: a },
        ) && e@ == expected && a@ == actual,
        PollOutcomeV::MissingHeader(nm) => r matches Err(ResponseErrors::MissingHeader(x)) && x@
            == nm,
        PollOutcomeV::HeaderMismatch(nm) => r matches Err(ResponseErrors::HeaderMismatch(x)) && x@
            == nm,
        PollOutcomeV::MissingInformation => r == Err::<WireResponse, ResponseErrors>(
            ResponseErrors::MissingInformation,
        ),
        PollOutcomeV::Inconsistent => r == Err::<WireResponse, ResponseErrors>(
            ResponseErrors::BackendInconsistency,
        ),
    }
}

/// Decides a poll from the three stored fields, the key's own existence, and
/// the incoming request, yielding exactly the outcome of `spec_poll`.
pub fn poll_decision(
    key_exists: bool,
    method_field: &Option<String>,
    request_field: &Option<String>,
    response_field: &Option<String>,
    incoming_method: &str,
    incoming_headers: &Vec<(String, String)>,
) -> (r: Result<WireResponse, ResponseErrors>)
    ensures
        poll_result_matches(
            spec_poll(
                key_exists,
                method_field.deep_view(),
                request_field.deep_view(),
                response_field.deep_view(),
                incoming_method@,
                incoming_headers.deep_view(),
            ),
            r,
        ),
{
    match method_field {
        None => {
            if key_exists {
                Err(ResponseErrors::BackendInconsistency)
            } else {
                Err(ResponseErrors::NotFound)
            }
        },
        Some(m) => {
            if !str_eq(m.as_str(), incoming_method) {
                return Err(
                    ResponseErrors::MethodNotAllowed {
                        expected: m.clone(),
                        actual: String::from_str(incoming_method),
                    },
                );
            }
            match request_field {
                None => Err(ResponseErrors::BackendInconsistency),
                Some(rc) => {
                    match parse_request_config(rc.as_str()) {
                        None => Err(ResponseErrors::BackendInconsistency),
                        Some(cfg) => {
                            match cfg.headers {
                                None => Err(ResponseErrors::MissingInformation),
                                Some(tpl) => {
                                    match match_headers(&tpl, incoming_headers) {
                                        Err(e) => Err(e),
                                        Ok(()) => {
                                            match response_field {
                                                None => Err(ResponseErrors::BackendInconsistency),
                                                Some(sc) => {
                                                    match parse_response_spec(sc.as_str()) {
                                                        None => Err(
                                                            ResponseErrors::BackendInconsistency,
                                                        ),
                                                        Some(rs) => Ok(synthesize(&rs)),
                                                    }
                                                },
                                            }
                                        },
                                    }
                                },
                            }
                        },
                    }
                },
            }
        },
    }
}

/// Round-trip fidelity: polling a record persisted by a valid registration,
/// with the registered method and headers that satisfy the registered
/// template, succeeds and replays the registered status, headers and body
/// exactly.
pub proof fn lemma_poll_round_trip(
    p: crate::registration::PayloadV,
    incoming_headers: Seq<(Seq<char>, Seq<char>)>,
)
    requires
        crate::registration::valid_payload(p),
        p.http_request.request_config.headers matches Some(tpl) && check_headers(
            tpl,
            incoming_headers,
        ) is Matched,
    ensures
        ({
            let rec = crate::store::stored_record_of(p);
            spec_poll(
                true,
                Some(rec.request_method),
                Some(rec.request_config),
                Some(rec.response_config),
                p.http_request.method,
                incoming_headers,
            ) == PollOutcomeV::Matched(wire_of(crate::store::response_spec_of(p)))
        }),
{
    crate::codec::lemma_request_config_roundtrip(p.http_request.request_config);
    crate::codec::lemma_response_spec_roundtrip(crate::store::response_spec_of(p));
}

/// Every rejection reaches the wire as its prescribed status: unknown keys
/// and missing registered headers as 404, a method mismatch as 405, a wrong
/// header value as 400, and stored-data trouble as 500.
pub proof fn lemma_poll_failure_statuses(o: PollOutcomeV, r: Result<WireResponse, ResponseErrors>)
    requires
        poll_result_matches(o, r),
    ensures
        o is NotFound ==> (r matches Err(e) && response_error_status(e) == 404),
        o matches PollOutcomeV::MissingHeader(_) ==> (r matches Err(e) && response_error_status(
            e,
        ) == 404),
        o matches PollOutcomeV::WrongMethod { .. } ==> (r matches Err(e)
            && response_error_status(e) == 405),
        o matches PollOutcomeV::HeaderMismatch(_) ==> (r matches Err(e) && response_error_status(
            e,
        ) == 400),
        o is MissingInformation ==> (r matches Err(e) && response_error_status(e) == 500),
        o is Inconsistent ==> (r matches Err(e) && response_error_status(e) == 500),
{
}

} // verus!
