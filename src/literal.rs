//! Reading a timestamp from a signed decimal numeral such as `-10000.25`.
//!
//! The numeral may be surrounded by whitespace, may start with `-` (with
//! whitespace allowed after it), and may have a fraction after a single `.`;
//! a leading `.` reads as `0.`. The fraction is cut or padded to nine digits.
//! The offset is the fraction as written. A negative numeral with a non-zero
//! fraction takes one more whole second before the sign is applied, so that
//! the offset is never negative: `-0.5` reads as `(-1, 500_000_000)` and
//! `-10000.25` as `(-10001, 250_000_000)`.
use crate::timestamp::pow10;
use crate::timestamp::Timestamp;
use vstd::prelude::*;
use vstd::string::*;

verus! {

/// Why a numeral does not read as a timestamp.
#[derive(Clone, Copy, Debug, PartialEq, Eq, Structural)]
pub enum ParseError {
    /// Nothing but whitespace.
    Empty,
    /// More than one decimal point.
    MultiplePoints,
    /// A character other than a digit where digits are expected, or no
    /// digits at all.
    InvalidDigit,
    /// The whole seconds do not fit in an `i64`.
    OutOfRange,
}

/// `char::is_whitespace`: the characters with Unicode's `White_Space` property.
pub open spec fn is_whitespace(c: char) -> bool {
    let v = c as u32;
    (9 <= v <= 13) || v == 32 || v == 0x85 || v == 0xa0 || v == 0x1680 || (0x2000 <= v
        <= 0x200a) || v == 0x2028 || v == 0x2029 || v == 0x202f || v == 0x205f || v == 0x3000
}

/// `s` without its leading whitespace.
pub open spec fn trim_start(s: Seq<char>) -> Seq<char>
    decreases s.len(),
{
    if s.len() > 0 && is_whitespace(s[0]) {
        trim_start(s.drop_first())
    } else {
        s
    }
}

/// `s` without its trailing whitespace.
pub open spec fn trim_end(s: Seq<char>) -> Seq<char>
    decreases s.len(),
{
    if s.len() > 0 && is_whitespace(s.last()) {
        trim_end(s.drop_last())
    } else {
        s
    }
}

/// `s` without surrounding whitespace.
pub open spec fn trim(s: Seq<char>) -> Seq<char> {
    trim_end(trim_start(s))
}

/// An ASCII decimal digit.
pub open spec fn is_digit(c: char) -> bool {
    '0' as u32 <= c as u32 <= '9' as u32
}

/// Every character of `s` is a digit.
pub open spec fn all_digits(s: Seq<char>) -> bool {
    forall|i: int| 0 <= i < s.len() ==> is_digit(#[trigger] s[i])
}

/// The number that a string of digits writes in base ten (0 when empty).
pub open spec fn digits_value(s: Seq<char>) -> nat
    decreases s.len(),
{
    if s.len() == 0 {
        0
    } else {
        digits_value(s.drop_last()) * 10 + (s.last() as u32 - '0' as u32) as nat
    }
}

/// The number of characters before the first `.` (all of them when there is none).
pub open spec fn whole_len(s: Seq<char>) -> int
    decreases s.len(),
{
    if s.len() == 0 || s[0] == '.' {
        0
    } else {
        1 + whole_len(s.drop_first())
    }
}

/// The fraction digits as nanoseconds: the first nine, padded with zeros.
pub open spec fn fraction_nanos(f: Seq<char>) -> nat {
    if f.len() >= 9 {
        digits_value(f.take(9))
    } else {
        digits_value(f) * pow10((9 - f.len()) as nat)
    }
}

/// The whole seconds of a numeral from its sign and its magnitude, when they
/// fit in an `i64`.
pub open spec fn signed_seconds(neg: bool, magnitude: int) -> Result<int, ParseError> {
    let v = if neg {
        -magnitude
    } else {
        magnitude
    };
    if i64::MIN <= v <= i64::MAX {
        Ok(v)
    } else {
        Err(ParseError::OutOfRange)
    }
}

/// The instant that a numeral without a point writes, from its sign and digits.
pub open spec fn integer_value(neg: bool, body: Seq<char>) -> Result<int, ParseError> {
    if body.len() == 0 || !all_digits(body) {
        Err(ParseError::InvalidDigit)
    } else {
        match signed_seconds(neg, digits_value(body) as int) {
            Ok(secs) => Ok(secs * 1_000_000_000),
            Err(e) => Err(e),
        }
    }
}

/// The instant that a numeral with whole digits `whole` and fraction digits
/// `frac` writes, from its sign.
pub open spec fn decimal_value(neg: bool, whole: Seq<char>, frac: Seq<char>) -> Result<
    int,
    ParseError,
> {
    if whole_len(frac) < frac.len() {
        Err(ParseError::MultiplePoints)
    } else if !all_digits(whole) || !all_digits(frac) {
        Err(ParseError::InvalidDigit)
    } else {
        let nanos = fraction_nanos(frac) as int;
        let carry: int = if neg && nanos != 0 {
            1
        } else {
            0
        };
        match signed_seconds(neg, digits_value(whole) + carry) {
            Ok(secs) => Ok(secs * 1_000_000_000 + nanos),
            Err(e) => Err(e),
        }
    }
}

/// The instant that the unsigned part of a numeral writes, from its sign.
pub open spec fn body_value(neg: bool, body: Seq<char>) -> Result<int, ParseError> {
    let p = whole_len(body);
    if p == body.len() {
        integer_value(neg, body)
    } else {
        decimal_value(neg, body.take(p), body.skip(p + 1))
    }
}

/// The instant, in nanoseconds since the epoch, that the numeral `s` writes.
pub open spec fn literal_value(s: Seq<char>) -> Result<int, ParseError> {
    let t = trim(s);
    if t.len() == 0 {
        Err(ParseError::Empty)
    } else if t[0] == '-' {
        body_value(true, trim_start(t.drop_first()))
    } else {
        body_value(false, t)
    }
}

/// Digits of a numeral are bounded by the next power of ten.
proof fn lemma_digits_bound(s: Seq<char>)
    requires
        all_digits(s),
    ensures
        digits_value(s) < pow10(s.len()),
    decreases s.len(),
{
    if s.len() > 0 {
        let init = s.drop_last();
        assert(all_digits(init)) by {
            assert forall|i: int| 0 <= i < init.len() implies is_digit(#[trigger] init[i]) by {
                assert(init[i] == s[i]);
            }
        }
        lemma_digits_bound(init);
        assert(is_digit(s[s.len() - 1]));
        let d = (s.last() as u32 - '0' as u32) as nat;
        assert(d <= 9);
        assert(pow10(s.len()) == 10 * pow10((s.len() - 1) as nat));
        assert(digits_value(init) * 10 + d < 10 * pow10(init.len())) by (nonlinear_arith)
            requires
                digits_value(init) < pow10(init.len()),
                d <= 9,
        ;
    } else {
        assert(pow10(0) == 1);
    }
}

/// `char::is_whitespace`.
fn is_space(c: char) -> (r: bool)
    ensures
        r == is_whitespace(c),
{
    let v = c as u32;
    (9 <= v && v <= 13) || v == 32 || v == 0x85 || v == 0xa0 || v == 0x1680 || (0x2000 <= v && v
        <= 0x200a) || v == 0x2028 || v == 0x2029 || v == 0x202f || v == 0x205f || v == 0x3000
}

/// The characters of `s`, in order.
fn chars_of(s: &str) -> (r: Vec<char>)
    ensures
        r@ == s@,
{
    let n = s.unicode_len();
    let mut r: Vec<char> = Vec::new();
    let mut i: usize = 0;
    while i < n
        invariant
            i <= n,
            n == s@.len(),
            r@ == s@.take(i as int),
        decreases n - i,
    {
        r.push(s.get_char(i));
        i = i + 1;
        assert(r@ =~= s@.take(i as int));
    }
    assert(r@ =~= s@);
    r
}

/// The first position from `from` on that is not whitespace.
fn skip_whitespace(v: &Vec<char>, from: usize, to: usize) -> (r: usize)
    requires
        from <= to <= v@.len(),
    ensures
        from <= r <= to,
        trim_start(v@.subrange(from as int, to as int)) == v@.subrange(r as int, to as int),
{
    let mut i = from;
    while i < to && is_space(v[i])
        invariant
            from <= i <= to <= v@.len(),
            trim_start(v@.subrange(from as int, to as int)) == trim_start(
                v@.subrange(i as int, to as int),
            ),
        decreases to - i,
    {
        assert(v@.subrange(i as int, to as int).drop_first() =~= v@.subrange(
            i as int + 1,
            to as int,
        ));
        i = i + 1;
    }
    i
}

/// The end of `v[from..to]` once trailing whitespace is dropped.
fn drop_trailing_whitespace(v: &Vec<char>, from: usize, to: usize) -> (r: usize)
    requires
        from <= to <= v@.len(),
    ensures
        from <= r <= to,
        trim_end(v@.subrange(from as int, to as int)) == v@.subrange(from as int, r as int),
{
    let mut j = to;
    while j > from && is_space(v[j - 1])
        invariant
            from <= j <= to <= v@.len(),
            trim_end(v@.subrange(from as int, to as int)) == trim_end(
                v@.subrange(from as int, j as int),
            ),
        decreases j - from,
    {
        assert(v@.subrange(from as int, j as int).drop_last() =~= v@.subrange(
            from as int,
            j as int - 1,
        ));
        j = j - 1;
    }
    j
}

/// The position of the first `.` in `v[from..to]`, or `to` when there is none.
fn find_point(v: &Vec<char>, from: usize, to: usize) -> (r: usize)
    requires
        from <= to <= v@.len(),
    ensures
        from <= r <= to,
        whole_len(v@.subrange(from as int, to as int)) == r - from,
{
    let mut i = from;
    while i < to && v[i] != '.'
        invariant
            from <= i <= to <= v@.len(),
            whole_len(v@.subrange(from as int, to as int)) == (i - from) + whole_len(
                v@.subrange(i as int, to as int),
            ),
        decreases to - i,
    {
        assert(v@.subrange(i as int, to as int).drop_first() =~= v@.subrange(
            i as int + 1,
            to as int,
        ));
        i = i + 1;
    }
    i
}

/// Whether `v[from..to]` holds digits only.
fn all_digits_in(v: &Vec<char>, from: usize, to: usize) -> (r: bool)
    requires
        from <= to <= v@.len(),
    ensures
        r == all_digits(v@.subrange(from as int, to as int)),
{
    let mut i = from;
    while i < to
        invariant
            from <= i <= to <= v@.len(),
            all_digits(v@.subrange(from as int, i as int)),
        decreases to - i,
    {
        let c = v[i] as u32;
        if c < '0' as u32 || c > '9' as u32 {
            assert(v@.subrange(from as int, to as int)[i - from] == v@[i as int]);
            return false;
        }
        assert forall|k: int| 0 <= k < i + 1 - from implies is_digit(
            #[trigger] v@.subrange(from as int, i as int + 1)[k],
        ) by {
            if k < i - from {
                assert(v@.subrange(from as int, i as int + 1)[k] == v@.subrange(
                    from as int,
                    i as int,
                )[k]);
            }
        }
        i = i + 1;
    }
    true
}

/// The largest magnitude worth tracking: beyond it no whole-second count fits.
const MAGNITUDE_CAP: u64 = 9_223_372_036_854_775_809;

/// The value of the digits `v[from..to]`, or `MAGNITUDE_CAP` when it is at
/// least that.
fn digits_magnitude(v: &Vec<char>, from: usize, to: usize) -> (r: u64)
    requires
        from <= to <= v@.len(),
        all_digits(v@.subrange(from as int, to as int)),
    ensures
        r == (if digits_value(v@.subrange(from as int, to as int)) < MAGNITUDE_CAP {
            digits_value(v@.subrange(from as int, to as int))
        } else {
            MAGNITUDE_CAP as nat
        }),
{
    let mut acc: u64 = 0;
    let mut i = from;
    assert(v@.subrange(from as int, from as int).len() == 0);
    while i < to
        invariant
            from <= i <= to <= v@.len(),
            all_digits(v@.subrange(from as int, to as int)),
            acc == (if digits_value(v@.subrange(from as int, i as int)) < MAGNITUDE_CAP {
                digits_value(v@.subrange(from as int, i as int))
            } else {
                MAGNITUDE_CAP as nat
            }),
        decreases to - i,
    {
        let ghost prev = v@.subrange(from as int, i as int);
        let ghost next = v@.subrange(from as int, i as int + 1);
        assert(next.drop_last() =~= prev);
        assert(v@.subrange(from as int, to as int)[i - from] == v@[i as int]);
        assert(is_digit(v@[i as int]));
        let d = (v[i] as u32 - '0' as u32) as u64;
        assert(digits_value(next) == digits_value(prev) * 10 + d);
        if acc < MAGNITUDE_CAP {
            let wide = (acc as u128) * 10 + (d as u128);
            if wide < MAGNITUDE_CAP as u128 {
                acc = wide as u64;
            } else {
                acc = MAGNITUDE_CAP;
            }
        } else {
            assert(digits_value(next) >= digits_value(prev)) by (nonlinear_arith)
                requires
                    digits_value(next) == digits_value(prev) * 10 + d,
            ;
        }
        i = i + 1;
    }
    acc
}

/// The fraction digits `v[from..to]` as nanoseconds.
fn fraction_value(v: &Vec<char>, from: usize, to: usize) -> (r: u32)
    requires
        from <= to <= v@.len(),
        all_digits(v@.subrange(from as int, to as int)),
    ensures
        r as nat == fraction_nanos(v@.subrange(from as int, to as int)),
        r < 1_000_000_000,
{
    let ghost f = v@.subrange(from as int, to as int);
    let used: usize = if to - from >= 9 {
        9
    } else {
        to - from
    };
    let ghost digits = f.take(used as int);
    assert(all_digits(digits)) by {
        assert forall|k: int| 0 <= k < digits.len() implies is_digit(#[trigger] digits[k]) by {
            assert(digits[k] == f[k]);
        }
    }
    let mut acc: u32 = 0;
    let mut i: usize = 0;
    assert(f.take(0).len() == 0);
    while i < used
        invariant
            i <= used <= 9,
            used <= to - from,
            from <= to <= v@.len(),
            f == v@.subrange(from as int, to as int),
            digits == f.take(used as int),
            all_digits(f),
            acc as nat == digits_value(f.take(i as int)),
            (acc as nat) < pow10(i as nat),
            pow10(i as nat) <= 1_000_000_000,
        decreases used - i,
    {
        let ghost prev = f.take(i as int);
        let ghost next = f.take(i as int + 1);
        assert(next.drop_last() =~= prev);
        assert(f[i as int] == v@[from + i]);
        assert(is_digit(f[i as int]));
        let d = (v[from + i] as u32 - '0' as u32);
        proof {
            crate::timestamp::lemma_pow10_add(i as nat, (9 - i) as nat);
            crate::timestamp::lemma_pow10_add(i as nat, 1);
            crate::timestamp::lemma_pow10_add((i + 1) as nat, (8 - i) as nat);
            crate::timestamp::lemma_pow10_positive((8 - i) as nat);
            reveal_with_fuel(pow10, 10);
            assert(pow10(1) == 10);
            assert(acc as nat * 10 + d < pow10((i + 1) as nat)) by (nonlinear_arith)
                requires
                    acc as nat + 1 <= pow10(i as nat),
                    d <= 9,
                    pow10((i + 1) as nat) == pow10(i as nat) * 10,
            ;
            assert(pow10((i + 1) as nat) <= 1_000_000_000) by (nonlinear_arith)
                requires
                    pow10((i + 1) as nat) * pow10((8 - i) as nat) == 1_000_000_000,
                    pow10((8 - i) as nat) > 0,
            ;
        }
        acc = acc * 10 + d;
        i = i + 1;
    }
    assert(f.take(used as int) == digits);
    let mut k: usize = used;
    let ghost base = acc as nat;
    assert(pow10(0) == 1);
    assert(((k - used) as nat) == 0nat);
    assert(base * pow10(0) == base) by (nonlinear_arith)
        requires
            pow10(0) == 1,
    ;
    while k < 9
        invariant
            used <= k <= 9,
            base == digits_value(digits),
            base < pow10(used as nat),
            acc as nat == base * pow10((k - used) as nat),
            acc < 1_000_000_000,
            pow10(used as nat) <= 1_000_000_000,
        decreases 9 - k,
    {
        proof {
            crate::timestamp::lemma_pow10_add((k - used) as nat, 1);
            crate::timestamp::lemma_pow10_add(used as nat, (k + 1 - used) as nat);
            crate::timestamp::lemma_pow10_add((k + 1) as nat, (8 - k) as nat);
            crate::timestamp::lemma_pow10_positive((8 - k) as nat);
            reveal_with_fuel(pow10, 10);
            assert(pow10(1) == 10);
            assert(base * pow10((k + 1 - used) as nat) < 1_000_000_000) by (nonlinear_arith)
                requires
                    base < pow10(used as nat),
                    pow10(used as nat) * pow10((k + 1 - used) as nat) == pow10((k + 1) as nat),
                    pow10((k + 1) as nat) * pow10((8 - k) as nat) == 1_000_000_000,
                    pow10((8 - k) as nat) > 0,
            ;
            assert(base * pow10((k + 1 - used) as nat) == (base * pow10((k - used) as nat)) * 10)
                by (nonlinear_arith)
                requires
                    pow10((k + 1 - used) as nat) == pow10((k - used) as nat) * 10,
            ;
        }
        acc = acc * 10;
        k = k + 1;
    }
    proof {
        if f.len() >= 9 {
            assert(pow10(0) == 1);
            assert(base * pow10(0) == base) by (nonlinear_arith)
                requires
                    pow10(0) == 1,
            ;
        } else {
            assert(digits =~= f);
            assert(used == f.len());
        }
    }
    acc
}

/// Reads a timestamp from a signed decimal numeral such as `1335020400`,
/// `1335020400.50`, `-10000.25` or `-.5`.
pub fn ts(input: &str) -> (r: Result<Timestamp, ParseError>)
    ensures
        match literal_value(input@) {
            Ok(v) => r is Ok && r->Ok_0@ == v,
            Err(e) => r == Err::<Timestamp, ParseError>(e),
        },
{
    let v = chars_of(input);
    let n = v.len();
    let lo = skip_whitespace(&v, 0, n);
    let hi = drop_trailing_whitespace(&v, lo, n);
    assert(v@.subrange(0, n as int) =~= input@);
    let ghost t = v@.subrange(lo as int, hi as int);
    assert(trim(input@) == t);
    if lo == hi {
        return Err(ParseError::Empty);
    }
    if v[lo] == '-' {
        let start = skip_whitespace(&v, lo + 1, hi);
        assert(t.drop_first() =~= v@.subrange(lo as int + 1, hi as int));
        read_body(&v, true, start, hi)
    } else {
        read_body(&v, false, lo, hi)
    }
}

/// Reads the unsigned part `v[start..hi]` of a numeral.
fn read_body(v: &Vec<char>, neg: bool, start: usize, hi: usize) -> (r: Result<
    Timestamp,
    ParseError,
>)
    requires
        start <= hi <= v@.len(),
    ensures
        match body_value(neg, v@.subrange(start as int, hi as int)) {
            Ok(x) => r is Ok && r->Ok_0@ == x,
            Err(e) => r == Err::<Timestamp, ParseError>(e),
        },
{
    let ghost body = v@.subrange(start as int, hi as int);
    let p = find_point(v, start, hi);
    if p == hi {
        if start == hi || !all_digits_in(v, start, hi) {
            return Err(ParseError::InvalidDigit);
        }
        let mag = digits_magnitude(v, start, hi);
        return match whole_seconds(neg, mag, false) {
            Ok(secs) => Ok(Timestamp::new(secs, 0)),
            Err(e) => Err(e),
        };
    }
    assert(body.take(p - start) =~= v@.subrange(start as int, p as int));
    assert(body.skip(p - start + 1) =~= v@.subrange(p as int + 1, hi as int));
    read_decimal(v, neg, start, p, hi)
}

/// Reads a numeral's whole digits `v[start..p]` and fraction `v[p + 1..hi]`.
fn read_decimal(v: &Vec<char>, neg: bool, start: usize, p: usize, hi: usize) -> (r: Result<
    Timestamp,
    ParseError,
>)
    requires
        start <= p < hi <= v@.len(),
    ensures
        match decimal_value(
            neg,
            v@.subrange(start as int, p as int),
            v@.subrange(p as int + 1, hi as int),
        ) {
            Ok(x) => r is Ok && r->Ok_0@ == x,
            Err(e) => r == Err::<Timestamp, ParseError>(e),
        },
{
    let q = find_point(v, p + 1, hi);
    if q < hi {
        return Err(ParseError::MultiplePoints);
    }
    if !all_digits_in(v, start, p) || !all_digits_in(v, p + 1, hi) {
        return Err(ParseError::InvalidDigit);
    }
    let nanos = fraction_value(v, p + 1, hi);
    let mag = digits_magnitude(v, start, p);
    match whole_seconds(neg, mag, nanos != 0) {
        Ok(secs) => Ok(Timestamp::new(secs, nanos)),
        Err(e) => Err(e),
    }
}

/// The whole seconds from a sign, a capped magnitude and whether the
/// magnitude takes one more second for a non-zero fraction of a negative
/// numeral.
fn whole_seconds(neg: bool, mag: u64, fraction: bool) -> (r: Result<i64, ParseError>)
    requires
        mag <= MAGNITUDE_CAP,
    ensures
        mag < MAGNITUDE_CAP ==> match signed_seconds(
            neg,
            mag + (if neg && fraction {
                1int
            } else {
                0int
            }),
        ) {
            Ok(s) => r == Ok::<i64, ParseError>(s as i64),
            Err(e) => r == Err::<i64, ParseError>(e),
        },
        mag == MAGNITUDE_CAP ==> r == Err::<i64, ParseError>(ParseError::OutOfRange),
{
    let m: u64 = if neg && fraction && mag < MAGNITUDE_CAP {
        mag + 1
    } else {
        mag
    };
    if neg {
        if m > 9_223_372_036_854_775_808u64 {
            Err(ParseError::OutOfRange)
        } else if m == 9_223_372_036_854_775_808u64 {
            Ok(i64::MIN)
        } else {
            Ok(-(m as i64))
        }
    } else if m > i64::MAX as u64 {
        Err(ParseError::OutOfRange)
    } else {
        Ok(m as i64)
    }
}

} // verus!
