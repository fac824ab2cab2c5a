//! Wall-clock timestamps in milliseconds since the Unix epoch.

use vstd::prelude::*;
use crate::text::{decimal_digits, decimal_string};

verus! {

/// Milliseconds since the Unix epoch.
#[derive(Clone, Copy, Debug, PartialEq, Eq, Structural, PartialOrd, Ord, Hash)]
pub struct Timestamp(pub u64);

/// Reads the system clock: milliseconds since the Unix epoch (0 if the
/// clock is set before the epoch). Nothing is promised of the value.
#[verifier::external_body]
fn system_time_millis() -> u64 {
    match std::time::SystemTime::now().duration_since(std::time::UNIX_EPOCH) {
        Ok(d) => d.as_millis() as u64,
        Err(_) => 0,
    }
}

impl Timestamp {
    /// The current wall-clock time.
    pub fn now() -> (r: Timestamp) {
        Timestamp(system_time_millis())
    }

    /// The number of milliseconds, written in decimal.
    pub fn to_string(&self) -> (r: String)
        ensures
            r@ == decimal_digits(self.0 as nat),
    {
        decimal_string(self.0)
    }
}

} // verus!
