//! The current time and fresh identifiers, taken from the outside world.
use vstd::prelude::*;

verus! {

/// Relies on `time::OffsetDateTime::now_utc`: the current UTC instant, as
/// nanoseconds since the Unix epoch. Nothing is known of its value.
#[verifier::external_body]
pub fn now_nanos() -> (r: i128) {
    time::OffsetDateTime::now_utc().unix_timestamp_nanos()
}

/// Relies on `uuid::Uuid::new_v4`: a random version-4 identifier, as its 128
/// bits. Nothing is known of its value.
#[verifier::external_body]
pub fn new_entry_id() -> (r: u128) {
    uuid::Uuid::new_v4().as_u128()
}

} // verus!
