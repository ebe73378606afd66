//! The registrar's persistence protocol: the record a registration writes,
//! the uniqueness check, and what the store's atomic "set each field only if
//! absent" transaction guarantees.

use vstd::prelude::*;
use crate::codec::{
    encode_request_config, encode_request_config_spec, encode_response_spec,
    encode_response_spec_spec,
};
use crate::errors::RegistrationFailure;
use crate::headers::copy_headers;
use crate::registration::{
    MockServerPayload, PayloadV, ResponseSpec, ResponseSpecV, valid_payload,
};

verus! {

/// The three string fields persisted under one registration key.
pub struct StoredRecord {
    pub request_method: String,
    pub request_config: String,
    pub response_config: String,
}

/// Mathematical shape of a stored record.
#[verifier::ext_equal]
pub struct StoredRecordV {
    pub request_method: Seq<char>,
    pub request_config: Seq<char>,
    pub response_config: Seq<char>,
}

impl View for StoredRecord {
    type V = StoredRecordV;

    open spec fn view(&self) -> StoredRecordV {
        StoredRecordV {
            request_method: self.request_method@,
            request_config: self.request_config@,
            response_config: self.response_config@,
        }
    }
}

/// The canned reply a payload registers: the submitted status code with the
/// response headers and body; absent ones are stored empty.
pub open spec fn response_spec_of(p: PayloadV) -> ResponseSpecV {
    ResponseSpecV {
        status_code: p.http_response.status_code,
        headers: match p.http_response.response_config.headers {
            None => Seq::empty(),
            Some(hs) => hs,
        },
        body: match p.http_response.response_config.body {
            None => Seq::empty(),
            Some(b) => b,
        },
    }
}

/// The record a payload persists: the raw method and the canonical encodings
/// of the request template and of the canned reply.
pub open spec fn stored_record_of(p: PayloadV) -> StoredRecordV {
    StoredRecordV {
        request_method: p.http_request.method,
        request_config: encode_request_config_spec(p.http_request.request_config),
        response_config: encode_response_spec_spec(response_spec_of(p)),
    }
}

/// Assembles the canned reply a payload registers.
pub fn build_response_spec(p: &MockServerPayload) -> (r: ResponseSpec)
    ensures
        r@ == response_spec_of(p@),
{
    let headers: Vec<(String, String)> = match &p.http_response.response_config.headers {
        None => Vec::new(),
        Some(hs) => copy_headers(hs),
    };
    let body: String = match &p.http_response.response_config.body {
        None => String::new(),
        Some(b) => b.clone(),
    };
    let r = ResponseSpec { status_code: p.http_response.status_code, headers, body };
    proof {
        assert(r@ =~= response_spec_of(p@));
    }
    r
}

/// Serializes the full record that registration persists for a payload.
pub fn build_stored_record(p: &MockServerPayload) -> (r: StoredRecord)
    requires
        valid_payload(p@),
    ensures
        r@ == stored_record_of(p@),
{
    let resp = build_response_spec(p);
    let r = StoredRecord {
        request_method: p.http_request.method.clone(),
        request_config: encode_request_config(&p.http_request.request_config),
        response_config: encode_response_spec(&resp),
    };
    proof {
        assert(r@ =~= stored_record_of(p@));
    }
    r
}

/// A key whose record is already present is a conflict; registration
/// proceeds only on a vacant key.
pub fn register_check_uniqueness(key_exists: bool) -> (r: Result<(), RegistrationFailure>)
    ensures
        (r is Ok) == !key_exists,
        key_exists ==> r == Err::<(), RegistrationFailure>(RegistrationFailure::KeyAlreadyExists),
{
    if key_exists {
        Err(RegistrationFailure::KeyAlreadyExists)
    } else {
        Ok(())
    }
}

/// The registration commits only when the transaction reports every field
/// newly set; any field that was already present rejects the whole
/// registration.
pub fn register_commit_outcome(method_set: bool, request_set: bool, response_set: bool) -> (r:
    Result<(), RegistrationFailure>)
    ensures
        (r is Ok) == (method_set && request_set && response_set),
        !(method_set && request_set && response_set) ==> r == Err::<(), RegistrationFailure>(
            RegistrationFailure::KeyAlreadyExists,
        ),
{
    if method_set && request_set && response_set {
        Ok(())
    } else {
        Err(RegistrationFailure::KeyAlreadyExists)
    }
}

// ---------------------------------------------------------------------------
// Model of the store's conditional multi-field transaction.
// ---------------------------------------------------------------------------
/// One key's three fields in the store, each possibly absent.
#[verifier::ext_equal]
pub struct FieldStateV {
    pub request_method: Option<Seq<char>>,
    pub request_config: Option<Seq<char>>,
    pub response_config: Option<Seq<char>>,
}

/// One field under "set only if absent": a present value is never replaced.
pub open spec fn field_set_nx(cur: Option<Seq<char>>, v: Seq<char>) -> Option<Seq<char>> {
    match cur {
        Some(x) => Some(x),
        None => Some(v),
    }
}

/// What the atomic transaction leaves under the key.
pub open spec fn txn_apply(f: FieldStateV, rec: StoredRecordV) -> FieldStateV {
    FieldStateV {
        request_method: field_set_nx(f.request_method, rec.request_method),
        request_config: field_set_nx(f.request_config, rec.request_config),
        response_config: field_set_nx(f.response_config, rec.response_config),
    }
}

/// Whether the transaction would report every field newly set.
pub open spec fn txn_all_new(f: FieldStateV) -> bool {
    f.request_method is None && f.request_config is None && f.response_config is None
}

/// All three fields are present: a completed registration.
pub open spec fn full_record(f: FieldStateV) -> bool {
    f.request_method is Some && f.request_config is Some && f.response_config is Some
}

/// No field is present: the key was never registered.
pub open spec fn vacant_record(f: FieldStateV) -> bool {
    txn_all_new(f)
}

/// A reader never sees a partial record: either none of the fields exist or
/// all three do.
pub open spec fn consistent_record(f: FieldStateV) -> bool {
    full_record(f) || vacant_record(f)
}

/// A second registration attempt under an occupied key changes nothing: the
/// transaction leaves every stored field exactly as it was, and does not
/// report success, so the attempt ends in a conflict.
pub proof fn lemma_second_registration_harmless(f: FieldStateV, rec: StoredRecordV)
    requires
        full_record(f),
    ensures
        txn_apply(f, rec) == f,
        !txn_all_new(f),
{
    assert(txn_apply(f, rec) =~= f);
}

/// A vacant key takes the record exactly as written, and the transaction
/// reports success.
pub proof fn lemma_first_registration_writes(f: FieldStateV, rec: StoredRecordV)
    requires
        vacant_record(f),
    ensures
        txn_apply(f, rec) == (FieldStateV {
            request_method: Some(rec.request_method),
            request_config: Some(rec.request_config),
            response_config: Some(rec.response_config),
        }),
        txn_all_new(f),
{
    assert(txn_apply(f, rec) =~= (FieldStateV {
        request_method: Some(rec.request_method),
        request_config: Some(rec.request_config),
        response_config: Some(rec.response_config),
    }));
}

/// The transaction never creates a partial record: a consistent key stays
/// consistent, whatever it held before.
pub proof fn lemma_txn_preserves_consistency(f: FieldStateV, rec: StoredRecordV)
    requires
        consistent_record(f),
    ensures
        consistent_record(txn_apply(f, rec)),
{
}

} // verus!
