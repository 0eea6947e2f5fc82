use vstd::prelude::*;

verus! {

/// The current time as milliseconds since the Unix epoch, read from
/// `std::time::SystemTime::now`; a clock set before the epoch reads as zero.
///
/// Nothing is stated of the value: it depends on the moment of the call.
#[verifier::external_body]
pub fn now_unix_millis() -> u64 {
    std::time::SystemTime::now().duration_since(std::time::UNIX_EPOCH).unwrap_or_default().as_millis() as u64
}

} // verus!
