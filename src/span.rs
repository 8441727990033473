//! Moving timestamps by a `std::time::Duration`, a non-negative span of
//! whole seconds and nanoseconds.
use crate::timestamp::wrap_total;
use crate::timestamp::Timestamp;
use std::ops::Add;
use std::ops::AddAssign;
use std::ops::Sub;
use std::ops::SubAssign;
use std::time::Duration;
use vstd::prelude::*;

verus! {

/// The whole seconds of a span, as `Duration::as_secs` gives them.
pub uninterp spec fn span_secs(d: Duration) -> u64;

/// The part of a span below one second, in nanoseconds, as
/// `Duration::subsec_nanos` gives it.
pub uninterp spec fn span_nanos(d: Duration) -> u32;

/// Relies on `Duration::as_secs`: the whole seconds of the span.
pub assume_specification[ Duration::as_secs ](d: &Duration) -> (r: u64)
    ensures
        r == span_secs(*d),
;

/// Relies on `Duration::subsec_nanos`: the part of the span below one second,
/// in nanoseconds, which its documentation puts below one billion.
pub assume_specification[ Duration::subsec_nanos ](d: &Duration) -> (r: u32)
    ensures
        r == span_nanos(*d),
        r < 1_000_000_000,
;

impl vstd::std_specs::ops::AddSpecImpl<Duration> for Timestamp {
    open spec fn obeys_add_spec() -> bool {
        true
    }

    open spec fn add_req(self, rhs: Duration) -> bool {
        true
    }

    open spec fn add_spec(self, rhs: Duration) -> Timestamp {
        Timestamp::from_total(
            self@ + span_secs(rhs) as int * 1_000_000_000 + span_nanos(rhs) as int,
        )
    }
}

impl vstd::std_specs::ops::SubSpecImpl<Duration> for Timestamp {
    open spec fn obeys_sub_spec() -> bool {
        true
    }

    open spec fn sub_req(self, rhs: Duration) -> bool {
        true
    }

    open spec fn sub_spec(self, rhs: Duration) -> Timestamp {
        Timestamp::from_total(
            self@ - (span_secs(rhs) as int * 1_000_000_000 + span_nanos(rhs) as int),
        )
    }
}

impl Add<Duration> for Timestamp {
    type Output = Timestamp;

    /// The timestamp the span `rhs` later.
    fn add(self, rhs: Duration) -> Timestamp {
        self.add_span(rhs.as_secs(), rhs.subsec_nanos())
    }
}

impl AddAssign<Duration> for Timestamp {
    /// Moves the timestamp the span `rhs` later.
    fn add_assign(&mut self, rhs: Duration)
        ensures
            final(self)@ == wrap_total(
                old(self)@ + span_secs(rhs) as int * 1_000_000_000 + span_nanos(rhs) as int,
            ),
    {
        *self = self.add_span(rhs.as_secs(), rhs.subsec_nanos());
    }
}

impl Sub<Duration> for Timestamp {
    type Output = Timestamp;

    /// The timestamp the span `rhs` earlier.
    fn sub(self, rhs: Duration) -> Timestamp {
        self.sub_span(rhs.as_secs(), rhs.subsec_nanos())
    }
}

impl SubAssign<Duration> for Timestamp {
    /// Moves the timestamp the span `rhs` earlier.
    fn sub_assign(&mut self, rhs: Duration)
        ensures
            final(self)@ == wrap_total(
                old(self)@ - (span_secs(rhs) as int * 1_000_000_000 + span_nanos(rhs) as int),
            ),
    {
        *self = self.sub_span(rhs.as_secs(), rhs.subsec_nanos());
    }
}

} // verus!
