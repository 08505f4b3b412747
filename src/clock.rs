//! The wall clock and fresh identifiers, which the engine takes from outside.
use vstd::prelude::*;

verus! {

/// Relies on `chrono::Utc::now`: milliseconds since the Unix epoch; nothing is
/// promised of the value.
#[verifier::external_body]
pub(crate) fn now_millis() -> (r: i64) {
    chrono::Utc::now().timestamp_millis()
}

/// Relies on `uuid::Uuid::new_v4`: a random 128-bit identifier; nothing is promised
/// of the value.
#[verifier::external_body]
pub(crate) fn fresh_unique_id() -> (r: u128) {
    uuid::Uuid::new_v4().as_u128()
}

} // verus!
