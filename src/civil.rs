//! Conversion to chrono's calendar date and time, which chrono computes from
//! the whole seconds and the offset.
use crate::timestamp::Timestamp;
use chrono::NaiveDateTime;
use vstd::prelude::*;

verus! {

#[verifier::external_type_specification]
#[verifier::external_body]
pub struct ExNaiveDateTime(NaiveDateTime);

/// The whole seconds of chrono's earliest date and time, January 1 of
/// 262144 BCE at midnight UTC.
pub const MIN_CIVIL_SECONDS: i64 = -8_334_601_228_800;

/// The whole seconds of chrono's latest date and time, December 31 of
/// 262142 CE at 23:59:59 UTC.
pub const MAX_CIVIL_SECONDS: i64 = 8_210_266_876_799;

/// Whether chrono can give the calendar date and time of `t`.
pub open spec fn in_civil_range(t: Timestamp) -> bool {
    MIN_CIVIL_SECONDS <= t@ / 1_000_000_000 <= MAX_CIVIL_SECONDS
}

/// The UTC date and time `secs` seconds and `nsecs` nanoseconds after the
/// epoch, as chrono computes it.
pub uninterp spec fn civil_of(secs: i64, nsecs: u32) -> NaiveDateTime;

/// Relies on `NaiveDateTime::from_timestamp_opt`: the UTC date and time
/// `secs` seconds and `nsecs` nanoseconds after the epoch. For `nsecs` below
/// one second it returns a date exactly when `secs` falls within chrono's
/// range of dates.
#[verifier::external_body]
#[allow(deprecated)]
fn naive_from_timestamp(secs: i64, nsecs: u32) -> (r: Option<NaiveDateTime>)
    ensures
        nsecs < 1_000_000_000 ==> ((r is Some) == (MIN_CIVIL_SECONDS <= secs
            <= MAX_CIVIL_SECONDS)),
        r is Some ==> r == Some(civil_of(secs, nsecs)),
{
    NaiveDateTime::from_timestamp_opt(secs, nsecs)
}

impl Timestamp {
    /// The date and time of this instant in UTC, without a zone.
    pub fn to_naive_datetime(&self) -> (r: NaiveDateTime)
        requires
            in_civil_range(*self),
        ensures
            r == civil_of((self@ / 1_000_000_000) as i64, (self@ % 1_000_000_000) as u32),
    {
        let secs = self.seconds();
        let nanos = self.nanos();
        proof {
            vstd::arithmetic::div_mod::lemma_mod_bound(self@, 1_000_000_000);
        }
        naive_from_timestamp(secs, nanos).unwrap()
    }
}

} // verus!
