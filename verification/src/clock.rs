use vstd::prelude::*;

verus! {

/// Relies on std's `SystemTime::now`: the current wall-clock instant as
/// milliseconds since the Unix epoch, converted without any panicking path —
/// a clock before the epoch reads as 0, one beyond the signed range as
/// `i64::MAX`. The result depends on when the call happens, so nothing is
/// promised of it.
#[verifier::external_body]
pub(crate) fn now_timestamp_millis() -> i64 {
    match std::time::SystemTime::now().duration_since(std::time::UNIX_EPOCH) {
        Ok(d) => i64::try_from(d.as_millis()).unwrap_or(i64::MAX),
        Err(_) => 0,
    }
}

} // verus!
