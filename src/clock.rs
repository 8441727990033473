//! The current time, read from the system clock.
use crate::span::span_nanos;
use crate::span::span_secs;
use crate::timestamp::Timestamp;
use std::time::Duration;
use std::time::SystemTime;
use vstd::prelude::*;

verus! {

#[verifier::external_type_specification]
#[verifier::external_body]
pub struct ExSystemTime(SystemTime);

/// Relies on `SystemTime::now`: a reading of the system clock, of which
/// nothing is known in advance.
pub assume_specification[ SystemTime::now ]() -> SystemTime;

/// Relies on `SystemTime::duration_since` with `SystemTime::UNIX_EPOCH`: the
/// span from the epoch to `t`, or `None` when `t` is earlier than the epoch.
#[verifier::external_body]
fn since_epoch(t: &SystemTime) -> Option<Duration> {
    t.duration_since(SystemTime::UNIX_EPOCH).ok()
}

impl Timestamp {
    /// The timestamp `secs + nanos / 10^9` seconds after the epoch, or `None`
    /// when `secs` is too large for an `i64` of seconds.
    pub fn from_epoch_span(secs: u64, nanos: u32) -> (r: Option<Timestamp>)
        requires
            nanos < 1_000_000_000,
        ensures
            (r is Some) == (secs <= i64::MAX as u64),
            r matches Some(t) ==> t@ == secs as int * 1_000_000_000 + nanos as int,
    {
        if secs > i64::MAX as u64 {
            None
        } else {
            let r = Timestamp::default().add_span(secs, nanos);
            proof {
                crate::timestamp::lemma_wrap_in_range(secs as int * 1_000_000_000 + nanos as int);
            }
            Some(r)
        }
    }

    /// The timestamp for a clock reading given as the span elapsed since the
    /// epoch: `None` when there is no such span (the reading is earlier than
    /// the epoch) or when its seconds are too large for an `i64`.
    pub fn from_elapsed_since_epoch(elapsed: Option<Duration>) -> (r: Option<Timestamp>)
        ensures
            match elapsed {
                None => r is None,
                Some(d) => {
                    &&& (r is Some) == (span_secs(d) <= i64::MAX as u64)
                    &&& (r matches Some(t) ==> t@ == span_secs(d) as int * 1_000_000_000
                        + span_nanos(d) as int)
                },
            },
    {
        match elapsed {
            Some(d) => Timestamp::from_epoch_span(d.as_secs(), d.subsec_nanos()),
            None => None,
        }
    }

    /// The timestamp of "right now", or `None` when the system clock reads a
    /// time before the epoch or too far after it for an `i64` of seconds.
    pub fn now() -> (r: Option<Timestamp>)
        ensures
            r matches Some(t) ==> t@ >= 0,
    {
        let clock = SystemTime::now();
        Timestamp::from_elapsed_since_epoch(since_epoch(&clock))
    }
}

} // verus!
