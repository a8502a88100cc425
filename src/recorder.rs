//! The telemetry record written for each completed request.
use vstd::prelude::*;
use crate::models::Request;

verus! {

/// Measured latency in whole milliseconds, held at `i32::MAX` when larger.
pub open spec fn latency_ms(elapsed_ms: u128) -> i32 {
    if elapsed_ms > i32::MAX as u128 {
        i32::MAX
    } else {
        elapsed_ms as i32
    }
}

/// The record for a finished request: one when the request's key resolved to a
/// known key (`api_key_id`), none otherwise. It carries the final status code
/// and the measured latency.
pub fn telemetry_record(
    id: u128,
    api_key_id: Option<u128>,
    endpoint: String,
    method: String,
    status: u16,
    elapsed_ms: u128,
    now: i64,
) -> (r: Option<Request>)
    ensures
        match api_key_id {
            None => r is None,
            Some(k) => r == Some(
                Request {
                    id,
                    api_key_id: k,
                    endpoint,
                    method,
                    status_code: status as i32,
                    response_time_ms: Some(latency_ms(elapsed_ms)),
                    created_at: now,
                },
            ),
        },
{
    match api_key_id {
        None => None,
        Some(k) => {
            let ms: i32 = if elapsed_ms > i32::MAX as u128 {
                i32::MAX
            } else {
                elapsed_ms as i32
            };
            Some(
                Request {
                    id,
                    api_key_id: k,
                    endpoint,
                    method,
                    status_code: status as i32,
                    response_time_ms: Some(ms),
                    created_at: now,
                },
            )
        },
    }
}

} // verus!
