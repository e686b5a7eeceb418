use vstd::prelude::*;

verus! {

/// Relies on rand::random: a fresh value drawn from the process-wide random
/// source. Nothing is assumed of the value; every caller handles every
/// possible outcome.
pub assume_specification<T>[ rand::random::<T> ]() -> (r: T)
    where
        rand::distributions::Standard: rand::distributions::Distribution<T>,
;

/// Relies on chrono: `Local::now().timestamp_millis()` reads the system
/// wall clock and converts it to milliseconds since the epoch. Nothing is
/// assumed of the value; callers guard the range they need at run time.
/// chrono itself panics if the system clock reads before the Unix epoch:
/// an environmental failure, not reachable from any input of this crate.
#[verifier::external_body]
pub(crate) fn now_millis() -> i64 {
    chrono::Local::now().timestamp_millis()
}

} // verus!
