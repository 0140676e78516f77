//! A span of time written for people: minutes, a prime, seconds, an optional
//! decimal fraction and a double prime, such as `1'5.25"`.

use vstd::prelude::*;
use crate::text::{decimal, push_char, push_decimal};

verus! {

/// A signed span of time of the chrono crate.
#[verifier::external_type_specification]
#[verifier::external_body]
pub struct ExTimeDelta(chrono::TimeDelta);

/// What chrono's `TimeDelta::num_seconds` gives for a span: its whole seconds,
/// rounded toward zero. It depends on the span alone.
pub uninterp spec fn delta_seconds(delta: chrono::TimeDelta) -> i64;

/// What chrono's `TimeDelta::subsec_nanos` gives for a span: the nanoseconds
/// beyond the whole seconds, with the sign of the span. It depends on the span
/// alone.
pub uninterp spec fn delta_nanos(delta: chrono::TimeDelta) -> i32;

/// chrono's `TimeDelta::num_seconds`, named `delta_seconds`. Stated besides:
/// it lies within the range of a `TimeDelta`, a thousandth of `i64::MAX` each way.
#[verifier::external_body]
fn delta_num_seconds(delta: &chrono::TimeDelta) -> (r: i64)
    ensures
        r == delta_seconds(*delta),
        -(i64::MAX / 1000) <= r <= i64::MAX / 1000,
{
    delta.num_seconds()
}

/// chrono's `TimeDelta::subsec_nanos`, named `delta_nanos`. Stated besides:
/// it is less than a second either way.
#[verifier::external_body]
fn delta_subsec_nanos(delta: &chrono::TimeDelta) -> (r: i32)
    ensures
        r == delta_nanos(*delta),
        -1_000_000_000 < r < 1_000_000_000,
{
    delta.subsec_nanos()
}

/// Division rounding toward zero, as Rust's `/` on signed integers.
pub open spec fn trunc_div(a: int, b: int) -> int {
    if a >= 0 {
        a / b
    } else {
        -((-a) / b)
    }
}

/// The remainder that goes with `trunc_div`, as Rust's `%`.
pub open spec fn trunc_rem(a: int, b: int) -> int {
    a - b * trunc_div(a, b)
}

/// An integer in base ten with a leading `-` when negative.
pub open spec fn signed_decimal(v: int) -> Seq<char> {
    if v < 0 {
        seq!['-'] + decimal((-v) as nat)
    } else {
        decimal(v as nat)
    }
}

/// Ten to the power `k`.
pub open spec fn pow10(k: nat) -> int
    decreases k,
{
    if k == 0 {
        1
    } else {
        10 * pow10((k - 1) as nat)
    }
}

/// The fraction part: nothing for a whole number of seconds, else a point and
/// the nanoseconds cut to `places` digits.
pub open spec fn fraction_text(subsec_nanos: int, places: nat) -> Seq<char> {
    if subsec_nanos == 0 {
        Seq::empty()
    } else {
        seq!['.'] + signed_decimal(trunc_div(subsec_nanos, pow10((9 - places) as nat)))
    }
}

/// The text of a span of `secs` whole seconds and `subsec_nanos` more nanoseconds.
pub open spec fn nice_time_text(secs: int, subsec_nanos: int, places: nat) -> Seq<char> {
    signed_decimal(trunc_div(secs, 60)) + seq!['\''] + signed_decimal(trunc_rem(secs, 60))
        + fraction_text(subsec_nanos, places) + seq!['"']
}

/// Appends `v` in base ten, with a leading `-` when negative.
fn push_signed(s: &mut String, v: i64)
    ensures
        final(s)@ == old(s)@ + signed_decimal(v as int),
{
    if v < 0 {
        push_char(s, '-');
        let magnitude: u64 = (0i128 - v as i128) as u64;
        push_decimal(s, magnitude);
        assert(final(s)@ =~= old(s)@ + signed_decimal(v as int));
    } else {
        push_decimal(s, v as u64);
    }
}

/// `|v| / d` with the sign of `v`, for `d > 0`.
fn div_toward_zero(v: i64, d: i64) -> (r: i64)
    requires
        d > 0,
        v > i64::MIN,
    ensures
        r == trunc_div(v as int, d as int),
{
    if v >= 0 {
        v / d
    } else {
        let m: i64 = -v;
        let q: i64 = m / d;
        -q
    }
}

/// Writes a span of `secs` whole seconds and `subsec_nanos` more nanoseconds
/// as minutes, `'`, seconds, the fraction cut to `decimal_places` digits when
/// there is one, and `"`.
pub fn nice_time(secs: i64, subsec_nanos: i32, decimal_places: u32) -> (r: String)
    requires
        decimal_places <= 9,
        secs > i64::MIN,
        subsec_nanos > i32::MIN,
    ensures
        r@ == nice_time_text(secs as int, subsec_nanos as int, decimal_places as nat),
{
    let mins = div_toward_zero(secs, 60);
    let rest = secs - 60 * mins;
    let mut out = String::new();
    push_signed(&mut out, mins);
    push_char(&mut out, '\'');
    push_signed(&mut out, rest);
    if subsec_nanos != 0 {
        let mut divisor: i64 = 1;
        let mut k: u32 = 0;
        while k < 9 - decimal_places
            invariant
                decimal_places <= 9,
                k <= 9 - decimal_places,
                divisor == pow10(k as nat),
                divisor <= 1_000_000_000,
                divisor >= 1,
            decreases 9 - decimal_places - k,
        {
            proof {
                lemma_pow10_bound(k as nat + 1);
            }
            divisor = divisor * 10;
            k = k + 1;
        }
        push_char(&mut out, '.');
        push_signed(&mut out, div_toward_zero(subsec_nanos as i64, divisor));
    }
    push_char(&mut out, '"');
    assert(out@ =~= nice_time_text(secs as int, subsec_nanos as int, decimal_places as nat));
    out
}

proof fn lemma_pow10_bound(k: nat)
    ensures
        k <= 9 ==> pow10(k) <= 1_000_000_000,
        pow10(k) >= 1,
{
    lemma_pow10_mono(k, 9);
    assert(pow10(0) == 1);
    assert(pow10(1) == 10);
    assert(pow10(2) == 100);
    assert(pow10(3) == 1000);
    assert(pow10(4) == 10000);
    assert(pow10(5) == 100000);
    assert(pow10(6) == 1000000);
    assert(pow10(7) == 10000000);
    assert(pow10(8) == 100000000);
    assert(pow10(9) == 1000000000);
}

proof fn lemma_pow10_pos(i: nat)
    ensures
        pow10(i) >= 1,
    decreases i,
{
    if i > 0 {
        lemma_pow10_pos((i - 1) as nat);
    }
}

proof fn lemma_pow10_mono(i: nat, j: nat)
    ensures
        pow10(i) >= 1,
        i <= j ==> pow10(i) <= pow10(j),
    decreases j,
{
    lemma_pow10_pos(i);
    lemma_pow10_pos(j);
    if i < j {
        lemma_pow10_mono(i, (j - 1) as nat);
    }
}

/// Writes `delta` as `nice_time` does, with its whole seconds and its
/// nanoseconds beyond them as chrono gives them.
pub fn as_nice_time(delta: &chrono::TimeDelta, decimal_places: u32) -> (r: String)
    requires
        decimal_places <= 9,
    ensures
        r@ == nice_time_text(
            delta_seconds(*delta) as int,
            delta_nanos(*delta) as int,
            decimal_places as nat,
        ),
{
    let secs = delta_num_seconds(delta);
    let nanos = delta_subsec_nanos(delta);
    nice_time(secs, nanos, decimal_places)
}

} // verus!
