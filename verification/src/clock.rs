//! The outside sources of time and identity: the system clock, the monotonic
//! clock and random identifiers.

use vstd::prelude::*;
use std::time::Duration;
use std::time::Instant;

verus! {

/// A point on the monotonic clock (`std::time::Instant`), carried through as is.
#[verifier::external_type_specification]
#[verifier::external_body]
pub struct ExInstant(std::time::Instant);

/// Milliseconds since the Unix epoch, read from the system clock with
/// `chrono::Utc::now`. Nothing is promised of the value: it is the time.
#[verifier::external_body]
pub fn now_millis() -> (t: i64) {
    chrono::Utc::now().timestamp_millis()
}

/// A fresh random identifier from `uuid::Uuid::new_v4`, as its 128-bit number.
/// Nothing is promised of the value: it is random.
#[verifier::external_body]
pub fn new_uuid() -> (id: u128) {
    uuid::Uuid::new_v4().as_u128()
}

/// The current point on the monotonic clock, from `Instant::now`.
#[verifier::external_body]
pub fn instant_now() -> (t: Instant) {
    Instant::now()
}

/// Whole seconds gone by since `start`, from `Instant::elapsed` read with
/// `Duration::as_secs`. Nothing is promised of the value: it is the time.
#[verifier::external_body]
pub fn secs_since(start: &Instant) -> (s: u64) {
    start.elapsed().as_secs()
}

/// The time gone by since `start`, from `Instant::elapsed`.
#[verifier::external_body]
pub fn elapsed_since(start: &Instant) -> (d: Duration) {
    start.elapsed()
}

} // verus!
