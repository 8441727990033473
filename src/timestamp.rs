//! The timestamp value type.
//!
//! A `Timestamp` stands for the instant `seconds + nanos / 10^9` seconds after
//! the epoch. `nanos` always lies in `[0, 10^9)`, also when `seconds` is
//! negative: `-0.25 s` is `(seconds: -1, nanos: 750_000_000)`.
//!
//! Its view is that instant counted in nanoseconds. The timestamps map one to
//! one onto the interval `[min_total(), min_total() + total_span())`.
//!
//! Overflow policy: the whole-second count wraps around as `i64` wrapping
//! arithmetic does. In terms of the view, every operation returns the
//! representative of the exact result modulo `total_span()` (see
//! `wrap_total`), which is the exact result whenever that is in range.
use vstd::arithmetic::div_mod::lemma_fundamental_div_mod_converse;
use std::cmp::Ordering;
use std::ops::Add;
use std::ops::AddAssign;
use std::ops::Rem;
use std::ops::Sub;
use std::ops::SubAssign;
use vstd::prelude::*;

verus! {

/// Nanoseconds in one second.
pub const NANOS_PER_SEC: u32 = 1_000_000_000;

/// The instant of the smallest timestamp, in nanoseconds.
pub open spec fn min_total() -> int {
    i64::MIN as int * 1_000_000_000
}

/// The number of distinct timestamps: `2^64` seconds of `10^9` nanoseconds.
pub open spec fn total_span() -> int {
    18_446_744_073_709_551_616int * 1_000_000_000
}

/// Whether an instant in nanoseconds has a timestamp of its own.
pub open spec fn in_range(x: int) -> bool {
    min_total() <= x < min_total() + total_span()
}

/// The representable instant that is congruent to `x` modulo `total_span()`.
pub open spec fn wrap_total(x: int) -> int {
    (x - min_total()) % total_span() + min_total()
}

/// `y` is the wrapped form of `x` when it is in range and differs by whole spans.
pub proof fn lemma_wrap_unique(x: int, y: int, k: int)
    requires
        in_range(y),
        y == x + k * total_span(),
    ensures
        y == wrap_total(x),
{
    assert(x - min_total() == (-k) * total_span() + (y - min_total())) by (nonlinear_arith)
        requires
            y == x + k * total_span(),
    ;
    lemma_fundamental_div_mod_converse(x - min_total(), total_span(), -k, y - min_total());
}

/// Wrapping leaves an instant in range unchanged.
pub proof fn lemma_wrap_in_range(x: int)
    requires
        in_range(x),
    ensures
        wrap_total(x) == x,
{
    lemma_wrap_unique(x, x, 0);
}

/// A wrapped instant is in range.
pub proof fn lemma_wrap_range(x: int)
    ensures
        in_range(wrap_total(x)),
{
    vstd::arithmetic::div_mod::lemma_mod_bound(x - min_total(), total_span());
}

/// Instants that differ by whole spans wrap to the same instant.
pub proof fn lemma_wrap_congruent(x: int, y: int, k: int)
    requires
        y == x + k * total_span(),
    ensures
        wrap_total(y) == wrap_total(x),
{
    let w = wrap_total(y);
    lemma_wrap_range(y);
    vstd::arithmetic::div_mod::lemma_fundamental_div_mod(y - min_total(), total_span());
    let q = (y - min_total()) / total_span();
    assert(w == x + (k - q) * total_span()) by (nonlinear_arith)
        requires
            y == x + k * total_span(),
            y - min_total() == total_span() * q + (y - min_total()) % total_span(),
            w == (y - min_total()) % total_span() + min_total(),
    ;
    lemma_wrap_unique(x, w, k - q);
}

/// `a + b` on whole seconds, wrapping, as a shift of the exact sum by whole
/// rounds of `2^64`.
proof fn lemma_wrapping_add(a: i64, b: i64) -> (j: int)
    ensures
        a.wrapping_add(b) as int == a as int + b as int + j * 18_446_744_073_709_551_616int,
        j * 1_000_000_000 * 18_446_744_073_709_551_616int == j * total_span(),
{
    let j: int = if a as int + b as int > i64::MAX {
        -1
    } else if (a as int + b as int) < (i64::MIN as int) {
        1
    } else {
        0
    };
    assert(j * 1_000_000_000 * 18_446_744_073_709_551_616int == j * total_span())
        by (nonlinear_arith);
    j
}

/// `a - b` on whole seconds, wrapping, as a shift of the exact difference by
/// whole rounds of `2^64`.
proof fn lemma_wrapping_sub(a: i64, b: i64) -> (j: int)
    ensures
        a.wrapping_sub(b) as int == a as int - b as int + j * 18_446_744_073_709_551_616int,
        j * 1_000_000_000 * 18_446_744_073_709_551_616int == j * total_span(),
{
    let j: int = if a as int - b as int > i64::MAX {
        -1
    } else if (a as int - b as int) < (i64::MIN as int) {
        1
    } else {
        0
    };
    assert(j * 1_000_000_000 * 18_446_744_073_709_551_616int == j * total_span())
        by (nonlinear_arith);
    j
}

/// `10^n`.
pub open spec fn pow10(n: nat) -> nat
    decreases n,
{
    if n == 0 {
        1
    } else {
        10 * pow10((n - 1) as nat)
    }
}

/// Powers of ten multiply by adding exponents.
pub proof fn lemma_pow10_add(a: nat, b: nat)
    ensures
        pow10(a + b) == pow10(a) * pow10(b),
    decreases a,
{
    if a > 0 {
        let p = pow10((a - 1) as nat);
        lemma_pow10_add((a - 1) as nat, b);
        assert(pow10(a + b) == 10 * pow10(((a - 1) as nat + b) as nat));
        assert(pow10(a) == 10 * p);
        assert(pow10(a + b) == pow10(a) * pow10(b)) by (nonlinear_arith)
            requires
                pow10(a + b) == 10 * (p * pow10(b)),
                pow10(a) == 10 * p,
        ;
    } else {
        assert(pow10(0) == 1);
        assert(a + b == b);
    }
}

/// `10^e * 10^(9 - e)` is one second in nanoseconds.
pub proof fn lemma_pow10_second(e: nat)
    requires
        e <= 9,
    ensures
        pow10(e) * pow10((9 - e) as nat) == 1_000_000_000,
        pow10(e) > 0,
        pow10((9 - e) as nat) > 0,
{
    lemma_pow10_add(e, (9 - e) as nat);
    reveal_with_fuel(pow10, 10);
    lemma_pow10_positive(e);
    lemma_pow10_positive((9 - e) as nat);
}

/// Every power of ten is positive.
pub proof fn lemma_pow10_positive(n: nat)
    ensures
        pow10(n) > 0,
    decreases n,
{
    if n > 0 {
        lemma_pow10_positive((n - 1) as nat);
    }
}

/// `10^n` for a precision exponent.
fn ten_to(n: u32) -> (r: u32)
    requires
        n <= 9,
    ensures
        r as nat == pow10(n as nat),
{
    let mut r: u32 = 1;
    let mut i: u32 = 0;
    while i < n
        invariant
            i <= n <= 9,
            r as nat == pow10(i as nat),
            r <= 1_000_000_000,
        decreases n - i,
    {
        proof {
            lemma_pow10_add(i as nat, (9 - i) as nat);
            lemma_pow10_positive((9 - i) as nat);
            reveal_with_fuel(pow10, 10);
            lemma_pow10_add(i as nat, 1);
            reveal_with_fuel(pow10, 2);
            assert(pow10(i as nat) * pow10((9 - i) as nat) == 1_000_000_000);
            lemma_pow10_add(1, (8 - i) as nat);
            assert(pow10(i as nat) * 10 <= 1_000_000_000) by (nonlinear_arith)
                requires
                    pow10(i as nat) * pow10((9 - i) as nat) == 1_000_000_000,
                    pow10((9 - i) as nat) == 10 * pow10((8 - i) as nat),
                    pow10((8 - i) as nat) > 0,
            ;
        }
        r = r * 10;
        i = i + 1;
    }
    r
}

/// An instant: whole seconds since the epoch plus a non-negative offset in
/// nanoseconds.
#[derive(Clone, Copy, Debug, PartialEq, Eq, Structural, Hash, Ord)]
pub struct Timestamp {
    seconds: i64,
    nanos: u32,
}

impl Timestamp {
    /// The type invariant: the offset is less than one second. Code that
    /// holds a timestamp learns it with `use_type_invariant`.
    #[verifier::type_invariant]
    pub closed spec fn offset_below_one_second(self) -> bool {
        self.nanos < 1_000_000_000
    }
}

impl View for Timestamp {
    type V = int;

    /// The instant in nanoseconds since the epoch.
    closed spec fn view(&self) -> int {
        self.seconds as int * 1_000_000_000 + self.nanos as int
    }
}

impl Timestamp {
    /// Every timestamp's instant is in range, and its fields are the floor
    /// quotient and remainder of that instant by one second.
    proof fn lemma_fields(self)
        requires
            self.nanos < 1_000_000_000,
        ensures
            in_range(self@),
            self@ / 1_000_000_000 == self.seconds as int,
            self@ % 1_000_000_000 == self.nanos as int,
    {
        lemma_fundamental_div_mod_converse(
            self@,
            1_000_000_000,
            self.seconds as int,
            self.nanos as int,
        );
    }

    /// Two valid timestamps with the same instant are the same value.
    proof fn lemma_view_injective(self, other: Timestamp)
        requires
            self.nanos < 1_000_000_000,
            other.nanos < 1_000_000_000,
            self@ == other@,
        ensures
            self == other,
    {
        self.lemma_fields();
        other.lemma_fields();
    }

    /// Two timestamps with the same instant are the same value.
    pub proof fn lemma_same_instant(self, other: Timestamp)
        requires
            self.offset_below_one_second(),
            other.offset_below_one_second(),
            self@ == other@,
        ensures
            self == other,
    {
        self.lemma_view_injective(other);
    }

    /// Builds the timestamp `seconds + nanos / 10^9`, where `nanos` may hold
    /// several whole seconds: each one is carried into `seconds`.
    pub fn new(seconds: i64, nanos: u32) -> (r: Timestamp)
        ensures
            r@ == wrap_total(seconds as int * 1_000_000_000 + nanos as int),
            in_range(seconds as int * 1_000_000_000 + nanos as int) ==> r@ == seconds as int
                * 1_000_000_000 + nanos as int,
    {
        let ghost start = seconds as int * 1_000_000_000 + nanos as int;
        let ghost mut k: int = 0;
        let mut seconds = seconds;
        let mut nanos = nanos;
        while nanos >= NANOS_PER_SEC
            invariant
                seconds as int * 1_000_000_000 + nanos as int == start + k * total_span(),
            decreases nanos,
        {
            if seconds == i64::MAX {
                proof {
                    k = k - 1;
                }
            }
            let ghost before = seconds;
            seconds = seconds.wrapping_add(1);
            nanos = nanos - NANOS_PER_SEC;
            proof {
                let kk = if before == i64::MAX { k + 1 } else { k };
                assert(seconds as int * 1_000_000_000 + nanos as int == start + k * total_span())
                    by (nonlinear_arith)
                    requires
                        before as int * 1_000_000_000 + nanos as int + 1_000_000_000 == start + kk
                            * total_span(),
                        before == i64::MAX ==> seconds == i64::MIN && k == kk - 1,
                        before != i64::MAX ==> seconds as int == before as int + 1 && k == kk,
                ;
            }
        }
        let r = Timestamp { seconds, nanos };
        proof {
            r.lemma_fields();
            lemma_wrap_unique(start, r@, k);
            if in_range(start) {
                lemma_wrap_in_range(start);
            }
        }
        r
    }

    /// Builds the timestamp that lies `nanos` nanoseconds after the epoch
    /// (before it, when negative): the whole seconds are the floor of the
    /// count divided by `10^9`, and the offset is the non-negative remainder.
    pub fn from_nanos(nanos: i128) -> (r: Timestamp)
        ensures
            r@ == wrap_total(nanos as int),
    {
        let quot = nanos.checked_div_euclid(1_000_000_000i128).unwrap();
        let rem = nanos.checked_rem_euclid(1_000_000_000i128).unwrap();
        proof {
            assert(0 <= rem < 1_000_000_000);
            lemma_fundamental_div_mod_converse(
                nanos as int,
                1_000_000_000,
                nanos as int / 1_000_000_000,
                nanos as int % 1_000_000_000,
            );
            vstd::arithmetic::div_mod::lemma_fundamental_div_mod(nanos as int, 1_000_000_000);
        }
        let shifted = quot - (i64::MIN as i128);
        let low = shifted.checked_rem_euclid(18_446_744_073_709_551_616i128).unwrap();
        let ghost laps = shifted as int / 18_446_744_073_709_551_616int;
        proof {
            vstd::arithmetic::div_mod::lemma_fundamental_div_mod(
                shifted as int,
                18_446_744_073_709_551_616int,
            );
        }
        let seconds = (low + (i64::MIN as i128)) as i64;
        let r = Timestamp { seconds, nanos: rem as u32 };
        proof {
            r.lemma_fields();
            assert(r@ == nanos as int + (-laps) * total_span()) by (nonlinear_arith)
                requires
                    r@ == seconds as int * 1_000_000_000 + rem as int,
                    nanos as int == 1_000_000_000 * quot + rem,
                    shifted as int == quot - i64::MIN as int,
                    shifted as int == 18_446_744_073_709_551_616int * laps + low as int,
                    seconds as int == low as int + i64::MIN as int,
            ;
            lemma_wrap_unique(nanos as int, r@, -laps);
        }
        r
    }

    /// Builds the timestamp that lies `micros` microseconds from the epoch.
    pub fn from_micros(micros: i64) -> (r: Timestamp)
        ensures
            r@ == micros as int * 1_000,
    {
        let r = Timestamp::from_nanos(micros as i128 * 1_000);
        proof {
            lemma_wrap_in_range(micros as int * 1_000);
        }
        r
    }

    /// Builds the timestamp that lies `millis` milliseconds from the epoch.
    pub fn from_millis(millis: i64) -> (r: Timestamp)
        ensures
            r@ == millis as int * 1_000_000,
    {
        let r = Timestamp::from_nanos(millis as i128 * 1_000_000);
        proof {
            lemma_wrap_in_range(millis as int * 1_000_000);
        }
        r
    }

    /// The whole seconds since the epoch, rounded down: `-1` for `-0.25 s`.
    pub fn seconds(&self) -> (r: i64)
        ensures
            r as int == self@ / 1_000_000_000,
    {
        proof {
            use_type_invariant(self);
            self.lemma_fields();
        }
        self.seconds
    }

    /// The non-negative offset past the whole seconds, in nanoseconds.
    pub fn nanos(&self) -> (r: u32)
        ensures
            r as int == self@ % 1_000_000_000,
    {
        proof {
            use_type_invariant(self);
            self.lemma_fields();
        }
        self.nanos
    }

    /// The instant counted in units of `10^-e` seconds, rounded down
    /// (`e = 3` gives milliseconds).
    pub fn at_precision(&self, e: u8) -> (r: i128)
        requires
            e <= 9,
        ensures
            r as int == self@ / (pow10((9 - e) as nat) as int),
    {
        proof {
            use_type_invariant(self);
        }
        let scale = ten_to(e as u32);
        let div = ten_to(9 - e as u32);
        proof {
            lemma_pow10_second(e as nat);
            assert(-9_223_372_036_854_775_808 * 1_000_000_000 <= self.seconds as int * scale
                <= 9_223_372_036_854_775_807 * 1_000_000_000) by (nonlinear_arith)
                requires
                    scale as int * div as int == 1_000_000_000,
                    scale > 0,
                    div > 0,
                    i64::MIN <= self.seconds <= i64::MAX,
            ;
        }
        let whole = (self.seconds as i128) * (scale as i128);
        let part = (self.nanos / div) as i128;
        proof {
            let d = div as int;
            vstd::arithmetic::div_mod::lemma_fundamental_div_mod(self.nanos as int, d);
            let m = self.nanos as int % d;
            assert(0 <= m < d) by {
                vstd::arithmetic::div_mod::lemma_mod_bound(self.nanos as int, d);
            }
            assert(self@ == (whole as int + part as int) * d + m) by (nonlinear_arith)
                requires
                    self@ == self.seconds as int * 1_000_000_000 + self.nanos as int,
                    scale as int * d == 1_000_000_000,
                    whole as int == self.seconds as int * scale as int,
                    self.nanos as int == d * part as int + m,
            ;
            lemma_fundamental_div_mod_converse(self@, d, whole as int + part as int, m);
        }
        whole + part
    }

    /// The offset past the whole seconds in units of `10^-e` seconds, rounded
    /// down (`e = 3` gives milliseconds). Never negative, whatever the sign
    /// of the instant.
    pub fn subsec(&self, e: u8) -> (r: u32)
        requires
            e <= 9,
        ensures
            r as int == (self@ % 1_000_000_000) / (pow10((9 - e) as nat) as int),
    {
        proof {
            use_type_invariant(self);
            self.lemma_fields();
            lemma_pow10_second(e as nat);
        }
        let div = ten_to(9 - e as u32);
        self.nanos / div
    }

    /// The timestamp whose instant is `wrap_total(x)`.
    pub closed spec fn from_total(x: int) -> Timestamp {
        Timestamp {
            seconds: (wrap_total(x) / 1_000_000_000) as i64,
            nanos: (wrap_total(x) % 1_000_000_000) as u32,
        }
    }

    /// `from_total(x)` has the instant `wrap_total(x)`.
    pub proof fn lemma_from_total(x: int)
        ensures
            Timestamp::from_total(x)@ == wrap_total(x),
    {
        Timestamp::lemma_from_total_valid(x);
    }

    proof fn lemma_from_total_valid(x: int)
        ensures
            Timestamp::from_total(x)@ == wrap_total(x),
            Timestamp::from_total(x).nanos < 1_000_000_000,
    {
        let w = wrap_total(x);
        lemma_wrap_range(w);
        lemma_wrap_range(x);
        vstd::arithmetic::div_mod::lemma_fundamental_div_mod(w, 1_000_000_000);
        vstd::arithmetic::div_mod::lemma_mod_bound(w, 1_000_000_000);
        assert(i64::MIN <= w / 1_000_000_000 <= i64::MAX) by {
            vstd::arithmetic::div_mod::lemma_div_is_ordered(
                min_total(),
                w,
                1_000_000_000,
            );
            vstd::arithmetic::div_mod::lemma_div_is_ordered(
                w,
                min_total() + total_span() - 1,
                1_000_000_000,
            );
            lemma_fundamental_div_mod_converse(min_total(), 1_000_000_000, i64::MIN as int, 0);
            lemma_fundamental_div_mod_converse(
                min_total() + total_span() - 1,
                1_000_000_000,
                i64::MAX as int,
                999_999_999,
            );
        }
    }

    /// A valid timestamp is `from_total` of its own instant.
    proof fn lemma_is_from_total(self, x: int)
        requires
            self.nanos < 1_000_000_000,
            self@ == wrap_total(x),
        ensures
            self == Timestamp::from_total(x),
    {
        Timestamp::lemma_from_total_valid(x);
        self.lemma_view_injective(Timestamp::from_total(x));
    }

    /// The timestamp `secs + nanos / 10^9` seconds later, through `new`.
    fn carry_add(self, secs: i64, nanos: u32) -> (r: Timestamp)
        requires
            nanos < 1_000_000_000,
        ensures
            r@ == wrap_total(self@ + secs as int * 1_000_000_000 + nanos as int),
    {
        proof {
            use_type_invariant(&self);
        }
        let whole = self.seconds.wrapping_add(secs);
        let r = Timestamp::new(whole, self.nanos + nanos);
        proof {
            let j = lemma_wrapping_add(self.seconds, secs);
            lemma_wrap_congruent(
                self@ + secs as int * 1_000_000_000 + nanos as int,
                whole as int * 1_000_000_000 + self.nanos as int + nanos as int,
                j,
            );
        }
        r
    }

    /// The timestamp `secs + nanos / 10^9` seconds earlier: when the offset
    /// to take away is the larger one, one second is borrowed.
    fn borrow_sub(self, secs: i64, nanos: u32) -> (r: Timestamp)
        requires
            nanos < 1_000_000_000,
        ensures
            r@ == wrap_total(self@ - (secs as int * 1_000_000_000 + nanos as int)),
    {
        proof {
            use_type_invariant(&self);
        }
        let whole = self.seconds.wrapping_sub(secs);
        if nanos > self.nanos {
            let borrowed = whole.wrapping_sub(1);
            let r = Timestamp::new(borrowed, self.nanos + NANOS_PER_SEC - nanos);
            proof {
                let j1 = lemma_wrapping_sub(self.seconds, secs);
                let j2 = lemma_wrapping_sub(whole, 1);
                assert((j1 + j2) * total_span() == j1 * total_span() + j2 * total_span())
                    by (nonlinear_arith);
                lemma_wrap_congruent(
                    self@ - (secs as int * 1_000_000_000 + nanos as int),
                    borrowed as int * 1_000_000_000 + self.nanos as int + 1_000_000_000
                        - nanos as int,
                    j1 + j2,
                );
            }
            r
        } else {
            let r = Timestamp::new(whole, self.nanos - nanos);
            proof {
                let j = lemma_wrapping_sub(self.seconds, secs);
                lemma_wrap_congruent(
                    self@ - (secs as int * 1_000_000_000 + nanos as int),
                    whole as int * 1_000_000_000 + self.nanos as int - nanos as int,
                    j,
                );
            }
            r
        }
    }

    /// The timestamp a span of `secs + nanos / 10^9` seconds later.
    pub fn add_span(self, secs: u64, nanos: u32) -> (r: Timestamp)
        requires
            nanos < 1_000_000_000,
        ensures
            r@ == wrap_total(self@ + secs as int * 1_000_000_000 + nanos as int),
            r == Timestamp::from_total(self@ + secs as int * 1_000_000_000 + nanos as int),
    {
        let s = wrap_seconds(secs);
        let r = self.carry_add(s, nanos);
        proof {
            use_type_invariant(&r);
            lemma_wrap_congruent(
                self@ + secs as int * 1_000_000_000 + nanos as int,
                self@ + s as int * 1_000_000_000 + nanos as int,
                if s as int == secs as int { 0 } else { -1 },
            );
            r.lemma_is_from_total(self@ + secs as int * 1_000_000_000 + nanos as int);
        }
        r
    }

    /// The timestamp a span of `secs + nanos / 10^9` seconds earlier.
    pub fn sub_span(self, secs: u64, nanos: u32) -> (r: Timestamp)
        requires
            nanos < 1_000_000_000,
        ensures
            r@ == wrap_total(self@ - (secs as int * 1_000_000_000 + nanos as int)),
            r == Timestamp::from_total(self@ - (secs as int * 1_000_000_000 + nanos as int)),
    {
        let s = wrap_seconds(secs);
        let r = self.borrow_sub(s, nanos);
        proof {
            use_type_invariant(&r);
            lemma_wrap_congruent(
                self@ - (secs as int * 1_000_000_000 + nanos as int),
                self@ - (s as int * 1_000_000_000 + nanos as int),
                if s as int == secs as int { 0 } else { 1 },
            );
            r.lemma_is_from_total(self@ - (secs as int * 1_000_000_000 + nanos as int));
        }
        r
    }
}

/// A count of seconds as an `i64`, wrapping past `i64::MAX`.
fn wrap_seconds(v: u64) -> (r: i64)
    ensures
        r as int == v as int || r as int == v as int - 18_446_744_073_709_551_616int,
{
    if v > i64::MAX as u64 {
        (v - 9_223_372_036_854_775_808u64) as i64 + i64::MIN
    } else {
        v as i64
    }
}

/// The remainder of `a` by `m` as Rust's `%` gives it: its sign is the sign
/// of `a`, and it is smaller than `m` in magnitude.
pub open spec fn trunc_rem(a: int, m: int) -> int {
    let r = (if a >= 0 {
        a
    } else {
        -a
    }) % (if m >= 0 {
        m
    } else {
        -m
    });
    if a >= 0 {
        r
    } else {
        -r
    }
}

impl vstd::std_specs::ops::AddSpecImpl for Timestamp {
    open spec fn obeys_add_spec() -> bool {
        true
    }

    open spec fn add_req(self, rhs: Timestamp) -> bool {
        true
    }

    open spec fn add_spec(self, rhs: Timestamp) -> Timestamp {
        Timestamp::from_total(self@ + rhs@)
    }
}

impl Add for Timestamp {
    type Output = Timestamp;

    /// The sum of two timestamps: seconds and offsets are added, and a full
    /// second in the offsets is carried.
    fn add(self, rhs: Timestamp) -> Timestamp {
        proof {
            use_type_invariant(&rhs);
        }
        let r = self.carry_add(rhs.seconds, rhs.nanos);
        proof {
            use_type_invariant(&r);
            r.lemma_is_from_total(self@ + rhs@);
        }
        r
    }
}

impl vstd::std_specs::ops::SubSpecImpl for Timestamp {
    open spec fn obeys_sub_spec() -> bool {
        true
    }

    open spec fn sub_req(self, rhs: Timestamp) -> bool {
        true
    }

    open spec fn sub_spec(self, rhs: Timestamp) -> Timestamp {
        Timestamp::from_total(self@ - rhs@)
    }
}

impl Sub for Timestamp {
    type Output = Timestamp;

    /// The difference of two timestamps, borrowing a second where the offset
    /// taken away is the larger one.
    fn sub(self, rhs: Timestamp) -> Timestamp {
        proof {
            use_type_invariant(&rhs);
        }
        let r = self.borrow_sub(rhs.seconds, rhs.nanos);
        proof {
            use_type_invariant(&r);
            r.lemma_is_from_total(self@ - rhs@);
        }
        r
    }
}

impl vstd::std_specs::ops::AddSpecImpl<i64> for Timestamp {
    open spec fn obeys_add_spec() -> bool {
        true
    }

    open spec fn add_req(self, rhs: i64) -> bool {
        true
    }

    open spec fn add_spec(self, rhs: i64) -> Timestamp {
        Timestamp::from_total(self@ + rhs as int * 1_000_000_000)
    }
}

impl Add<i64> for Timestamp {
    type Output = Timestamp;

    /// The timestamp `rhs` whole seconds later.
    fn add(self, rhs: i64) -> Timestamp {
        let r = self.carry_add(rhs, 0);
        proof {
            use_type_invariant(&r);
            r.lemma_is_from_total(self@ + rhs as int * 1_000_000_000);
        }
        r
    }
}

impl vstd::std_specs::ops::SubSpecImpl<i64> for Timestamp {
    open spec fn obeys_sub_spec() -> bool {
        true
    }

    open spec fn sub_req(self, rhs: i64) -> bool {
        true
    }

    open spec fn sub_spec(self, rhs: i64) -> Timestamp {
        Timestamp::from_total(self@ - rhs as int * 1_000_000_000)
    }
}

impl Sub<i64> for Timestamp {
    type Output = Timestamp;

    /// The timestamp `rhs` whole seconds earlier.
    fn sub(self, rhs: i64) -> Timestamp {
        let r = self.borrow_sub(rhs, 0);
        proof {
            use_type_invariant(&r);
            r.lemma_is_from_total(self@ - rhs as int * 1_000_000_000);
        }
        r
    }
}

impl AddAssign<i64> for Timestamp {
    /// Moves the timestamp `rhs` whole seconds later.
    fn add_assign(&mut self, rhs: i64)
        ensures
            final(self)@ == wrap_total(old(self)@ + rhs as int * 1_000_000_000),
    {
        *self = self.carry_add(rhs, 0);
    }
}

impl SubAssign<i64> for Timestamp {
    /// Moves the timestamp `rhs` whole seconds earlier.
    fn sub_assign(&mut self, rhs: i64)
        ensures
            final(self)@ == wrap_total(old(self)@ - rhs as int * 1_000_000_000),
    {
        *self = self.borrow_sub(rhs, 0);
    }
}

impl vstd::std_specs::ops::RemSpecImpl<i64> for Timestamp {
    open spec fn obeys_rem_spec() -> bool {
        true
    }

    open spec fn rem_req(self, rhs: i64) -> bool {
        rhs != 0
    }

    open spec fn rem_spec(self, rhs: i64) -> Timestamp {
        Timestamp::from_total(
            trunc_rem(self@ / 1_000_000_000, rhs as int) * 1_000_000_000 + self@ % 1_000_000_000,
        )
    }
}

impl Rem<i64> for Timestamp {
    type Output = Timestamp;

    /// The remainder of the whole seconds by `rhs`, as `%` on `i64` gives it;
    /// the offset is kept as it is.
    fn rem(self, rhs: i64) -> Timestamp {
        proof {
            use_type_invariant(&self);
            self.lemma_fields();
        }
        let seconds = match self.seconds.checked_rem(rhs) {
            Some(v) => v,
            None => {
                proof {
                    assert(9_223_372_036_854_775_808int % 1 == 0);
                }
                0
            },
        };
        let r = Timestamp { seconds, nanos: self.nanos };
        proof {
            let a = self.seconds as int;
            let m = rhs as int;
            assert(a * -1 == -a && m * -1 == -m);
            if a < 0 {
                let abs_m = if m >= 0 {
                    m
                } else {
                    -m
                };
                assert(-((-a) % abs_m) == ((-a) % abs_m) * -1);
            }
            assert(m != 0);
            if a == i64::MIN && m == -1 {
                assert(seconds == 0);
                assert(trunc_rem(a, m) == 0);
            } else if a == 0 {
                assert(seconds == 0);
            } else if a > 0 && m > 0 {
                assert(seconds as int == trunc_rem(a, m));
            } else if a < 0 && m < 0 {
                assert(seconds as int == trunc_rem(a, m));
            } else if a < 0 {
                assert(seconds as int == trunc_rem(a, m));
            } else {
                assert(seconds as int == trunc_rem(a, m));
            }
            assert(seconds as int == trunc_rem(a, m));
            r.lemma_fields();
            lemma_wrap_in_range(r@);
            r.lemma_is_from_total(r@);
        }
        r
    }
}

impl vstd::std_specs::convert::FromSpecImpl<i64> for Timestamp {
    open spec fn obeys_from_spec() -> bool {
        true
    }

    open spec fn from_spec(v: i64) -> Timestamp {
        Timestamp::from_total(v as int * 1_000_000_000)
    }
}

impl From<i64> for Timestamp {
    /// The timestamp `secs` whole seconds from the epoch.
    fn from(secs: i64) -> Timestamp {
        let r = Timestamp { seconds: secs, nanos: 0 };
        proof {
            r.lemma_fields();
            lemma_wrap_in_range(r@);
            r.lemma_is_from_total(r@);
        }
        r
    }
}

impl Default for Timestamp {
    /// The epoch itself.
    fn default() -> (r: Timestamp)
        ensures
            r@ == 0,
    {
        Timestamp { seconds: 0, nanos: 0 }
    }
}

impl vstd::std_specs::cmp::PartialOrdSpecImpl for Timestamp {
    open spec fn obeys_partial_cmp_spec() -> bool {
        true
    }

    /// Timestamps are ordered as the instants they stand for.
    open spec fn partial_cmp_spec(&self, other: &Timestamp) -> Option<Ordering> {
        if self@ < other@ {
            Some(Ordering::Less)
        } else if self@ > other@ {
            Some(Ordering::Greater)
        } else {
            Some(Ordering::Equal)
        }
    }
}

impl PartialOrd for Timestamp {
    /// Compares the whole seconds first and the offsets after them, which
    /// orders timestamps as the instants they stand for.
    fn partial_cmp(&self, other: &Timestamp) -> Option<Ordering> {
        proof {
            use_type_invariant(self);
            use_type_invariant(other);
        }
        if self.seconds < other.seconds {
            Some(Ordering::Less)
        } else if self.seconds > other.seconds {
            Some(Ordering::Greater)
        } else if self.nanos < other.nanos {
            Some(Ordering::Less)
        } else if self.nanos > other.nanos {
            Some(Ordering::Greater)
        } else {
            Some(Ordering::Equal)
        }
    }
}

} // verus!
