use vstd::prelude::*;

verus! {

/// Identifier type shared by all three tables.
pub type IdType = u64;

/// Timestamps are unix time in milliseconds.
pub type TimeType = u64;

/// Relies on std::time::SystemTime::now for the wall clock. The value depends
/// on the clock alone, so nothing is promised of the result; every caller
/// states what holds whatever value comes back.
#[verifier::external_body]
pub fn now() -> TimeType {
    std::time::SystemTime::now()
        .duration_since(std::time::UNIX_EPOCH)
        .expect("error calculating duration since unix epoch")
        .as_millis() as TimeType
}

} // verus!
