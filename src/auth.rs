//! Admission by API key, and the reply that each kind of refusal gets.
use vstd::prelude::*;
use crate::keys::{authenticate_step, KeyStore, StorageFault};
use crate::models::ApiKey;

verus! {

/// Why a request was not admitted.
#[derive(Debug, Clone, PartialEq, Eq)]
pub enum AuthError {
    /// No key was supplied.
    Missing,
    /// The key is unknown or inactive.
    Invalid,
    /// The key store failed during the lookup.
    Storage,
}

/// Marker for a request refused for want of a valid API key.
#[derive(Debug, Clone, PartialEq, Eq)]
pub struct Unauthorized;

/// The answer of the conditional update, as an admission decision.
pub open spec fn admission_of(lookup: Result<Option<ApiKey>, StorageFault>) -> Result<ApiKey, AuthError> {
    match lookup {
        Ok(Some(row)) => Ok(row),
        Ok(None) => Err(AuthError::Invalid),
        Err(_) => Err(AuthError::Storage),
    }
}

/// The supplied key, or `Missing` when there is none.
pub fn require_key(api_key: Option<String>) -> (r: Result<String, AuthError>)
    ensures
        match api_key {
            Some(k) => r == Ok::<String, AuthError>(k),
            None => r == Err::<String, AuthError>(AuthError::Missing),
        },
{
    match api_key {
        Some(k) => Ok(k),
        None => Err(AuthError::Missing),
    }
}

/// Turns the answer of the store's conditional update into an admission decision.
pub fn admission(lookup: Result<Option<ApiKey>, StorageFault>) -> (r: Result<ApiKey, AuthError>)
    ensures
        r == admission_of(lookup),
{
    match lookup {
        Ok(Some(row)) => Ok(row),
        Ok(None) => Err(AuthError::Invalid),
        Err(_) => Err(AuthError::Storage),
    }
}

/// Authenticates a request against `store` at time `now`: a missing key is
/// refused without touching the store; otherwise the lookup and the usage
/// increment are one conditional update, whose answer decides.
pub fn validate_api_key(api_key: Option<String>, store: &mut KeyStore, now: i64) -> (r: Result<ApiKey, AuthError>)
    requires
        old(store).wf(),
    ensures
        final(store).wf(),
        match api_key {
            None => r == Err::<ApiKey, AuthError>(AuthError::Missing) && final(store)@ == old(store)@,
            Some(k) => {
                let (rows, lookup) = authenticate_step(old(store)@, k@, now);
                final(store)@ == rows && r == admission_of(lookup)
            },
        },
{
    let key = match require_key(api_key) {
        Ok(k) => k,
        Err(e) => return Err(e),
    };
    let lookup = store.find_and_increment_active(key.as_str(), now);
    admission(lookup)
}

/// The kinds of refusal that reach the HTTP boundary.
#[derive(Debug, Clone, PartialEq, Eq)]
pub enum RejectionKind {
    NotFound,
    Unauthorized,
    QuotaExceeded,
    RateLimited,
    MethodNotAllowed,
    Other,
}

pub const NOT_FOUND_MESSAGE: &'static str = "Requested resource was not found.";

pub const UNAUTHORIZED_MESSAGE: &'static str = "Authentication error: API key is invalid or missing.";

pub const QUOTA_MESSAGE: &'static str = "API key has exceeded its request quota.";

pub const RATE_LIMITED_MESSAGE: &'static str = "Rate limit exceeded. Please slow down.";

pub const METHOD_MESSAGE: &'static str = "HTTP method is not allowed for the requested resource.";

pub const INTERNAL_MESSAGE: &'static str = "Internal Server Error.";

/// HTTP status and message for each kind of refusal.
pub open spec fn rejection_spec(kind: RejectionKind) -> (u16, &'static str) {
    match kind {
        RejectionKind::NotFound => (404, NOT_FOUND_MESSAGE),
        RejectionKind::Unauthorized => (401, UNAUTHORIZED_MESSAGE),
        RejectionKind::QuotaExceeded => (403, QUOTA_MESSAGE),
        RejectionKind::RateLimited => (429, RATE_LIMITED_MESSAGE),
        RejectionKind::MethodNotAllowed => (405, METHOD_MESSAGE),
        RejectionKind::Other => (500, INTERNAL_MESSAGE),
    }
}

/// The status code and message sent for a refusal.
pub fn rejection_reply(kind: RejectionKind) -> (r: (u16, String))
    ensures
        r.0 == rejection_spec(kind).0,
        r.1@ == rejection_spec(kind).1@,
{
    let (code, message) = match kind {
        RejectionKind::NotFound => (404, NOT_FOUND_MESSAGE),
        RejectionKind::Unauthorized => (401, UNAUTHORIZED_MESSAGE),
        RejectionKind::QuotaExceeded => (403, QUOTA_MESSAGE),
        RejectionKind::RateLimited => (429, RATE_LIMITED_MESSAGE),
        RejectionKind::MethodNotAllowed => (405, METHOD_MESSAGE),
        RejectionKind::Other => (500, INTERNAL_MESSAGE),
    };
    (code, message.to_string())
}

} // verus!
