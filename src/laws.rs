//! Laws that tie several operations together, stated over the instants that
//! the operations' contracts speak of.
use crate::timestamp::in_range;
use crate::timestamp::lemma_wrap_congruent;
use crate::timestamp::lemma_wrap_in_range;
use crate::timestamp::pow10;
use crate::timestamp::total_span;
use crate::timestamp::wrap_total;
use crate::timestamp::Timestamp;
use vstd::prelude::*;

verus! {

/// Moving a timestamp by any amount and back again gives the timestamp
/// back: `(t + d) - d == t`, for a span, a count of seconds or another
/// timestamp `d` (here `d` is its length in nanoseconds), also where the
/// first step wraps around. The second line states it for the results that
/// the operators' contracts give.
pub proof fn lemma_add_then_sub(ts: Timestamp, d: int)
    requires
        in_range(ts@),
    ensures
        wrap_total(wrap_total(ts@ + d) - d) == ts@,
        Timestamp::from_total(Timestamp::from_total(ts@ + d)@ - d)@ == ts@,
{
    let t = ts@;
    let w = wrap_total(t + d);
    vstd::arithmetic::div_mod::lemma_fundamental_div_mod(
        t + d - crate::timestamp::min_total(),
        total_span(),
    );
    let q = (t + d - crate::timestamp::min_total()) / total_span();
    assert(w - d == t + (-q) * total_span()) by (nonlinear_arith)
        requires
            t + d - crate::timestamp::min_total() == total_span() * q + (t + d
                - crate::timestamp::min_total()) % total_span(),
            w == (t + d - crate::timestamp::min_total()) % total_span()
                + crate::timestamp::min_total(),
    ;
    lemma_wrap_congruent(t, w - d, -q);
    lemma_wrap_in_range(t);
    Timestamp::lemma_from_total(t + d);
    Timestamp::lemma_from_total(w - d);
}

/// A timestamp read in milliseconds and built again from that count is the
/// same timestamp, when its offset is a whole number of milliseconds:
/// `from_millis(t.at_precision(3))` is `t`.
pub proof fn lemma_millis_round_trip(t: Timestamp)
    requires
        t@ % 1_000_000 == 0,
    ensures
        (t@ / (pow10(6) as int)) * 1_000_000 == t@,
{
    reveal_with_fuel(pow10, 7);
    vstd::arithmetic::div_mod::lemma_fundamental_div_mod(t@, 1_000_000);
}

/// A timestamp read in microseconds and built again from that count is the
/// same timestamp, when its offset is a whole number of microseconds:
/// `from_micros(t.at_precision(6))` is `t`.
pub proof fn lemma_micros_round_trip(t: Timestamp)
    requires
        t@ % 1_000 == 0,
    ensures
        (t@ / (pow10(3) as int)) * 1_000 == t@,
{
    reveal_with_fuel(pow10, 4);
    vstd::arithmetic::div_mod::lemma_fundamental_div_mod(t@, 1_000);
}

/// A timestamp read in nanoseconds and built again from that count is the
/// same timestamp: `from_nanos(t.at_precision(9))` is `t`.
pub proof fn lemma_nanos_round_trip(t: Timestamp)
    requires
        in_range(t@),
    ensures
        wrap_total(t@ / (pow10(0) as int)) == t@,
{
    assert(pow10(0) == 1);
    lemma_wrap_in_range(t@);
}

} // verus!
