use vstd::prelude::*;

use crate::block::Timestamp;

verus! {

/// The clock the worker polls. Implementations other than `SystemTime` serve
/// as injectable test clocks; nothing is assumed of the values returned.
pub trait CurrTimeFetcher {
    fn now(&self) -> Timestamp;
}

/// The real wall clock, read in UTC.
pub struct SystemTime;

impl SystemTime {
    pub fn new() -> (r: Self)
        ensures
            r == (SystemTime {  }),
    {
        SystemTime {  }
    }
}

/// Relies on `std::time::SystemTime::now` and `duration_since`: the current
/// instant as whole seconds since the Unix epoch; a clock set before the
/// epoch gives a negative reading rather than an abort. Nothing can be
/// promised of a clock reading.
#[verifier::external_body]
fn utc_now_timestamp() -> Timestamp {
    match std::time::SystemTime::now().duration_since(std::time::UNIX_EPOCH) {
        Ok(since) => since.as_secs() as i64,
        Err(before) => -(before.duration().as_secs() as i64),
    }
}

impl CurrTimeFetcher for SystemTime {
    fn now(&self) -> Timestamp {
        utc_now_timestamp()
    }
}

} // verus!
