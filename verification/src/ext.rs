//! Trusted wrappers around the outside crates that supply fresh identifiers
//! and timestamps.
use vstd::prelude::*;

verus! {

/// Relies on `uuid::Uuid::new_v4` and its `Display` impl: a version-4 UUID
/// rendered in the hyphenated form, which is always 36 characters. The value
/// is random, so nothing else is claimed of it.
#[verifier::external_body]
pub fn fresh_id() -> (r: String)
    ensures
        r@.len() == 36,
{
    uuid::Uuid::new_v4().to_string()
}

/// Relies on `chrono::Local::now` and `DateTime::format`: the current local
/// time rendered with a fixed `%Y-%m-%d %H:%M:%S` pattern. The value depends
/// on the clock, so nothing is claimed of it.
#[verifier::external_body]
pub fn now_timestamp() -> (r: String)
{
    chrono::Local::now().format("%Y-%m-%d %H:%M:%S").to_string()
}

} // verus!
