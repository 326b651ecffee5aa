//! Seconds in single precision.
//!
//! A span is shown here the way binary floating point with a mantissa of 24
//! bits shows it. Numbers are counted in units of 2^-54 seconds, which is fine
//! enough for every number that comes up.

use vstd::prelude::*;
use crate::decimal::{one_place, one_place_string, round_half_even, rounded};
use crate::number::{dec, dec_string};
use crate::time::Duration;

verus! {

/// One second in units: two to the power 54.
pub open spec fn second() -> nat {
    0x40_0000_0000_0000
}

/// The distance between neighbouring mantissas at `num / den`: `unit` doubled
/// until fewer than 2^24 of it make up the quotient.
pub open spec fn spacing(num: nat, den: nat, unit: nat, steps: nat) -> nat
    decreases steps,
{
    if steps == 0 || num < 0x100_0000 * (den * unit) {
        unit
    } else {
        spacing(num, den, 2 * unit, (steps - 1) as nat)
    }
}

/// The number with a mantissa of 24 bits that is nearest to `num / den`.
pub open spec fn nearest(num: nat, den: nat) -> nat {
    let unit = spacing(num, den, 1, 100);
    round_half_even(num, den * unit) * unit
}

/// The number with a mantissa of 24 bits that is nearest to `num / den`.
fn nearest_to(num: u128, den: u128) -> (r: u128)
    requires
        0 < den <= 0x4000_0000,
        num < 0x100_0000_0000_0000_0000_0000_0000_0000,
    ensures
        r == nearest(num as nat, den as nat),
        r <= num + num / 0x80_0000 + 1,
        den > 1 ==> r <= num,
{
    let mut unit: u128 = 1;
    let mut steps: u128 = 100;
    let mut whole: u128 = den;
    assert(den * 1 == den);
    while steps > 0 && num >= 0x100_0000 * whole
        invariant
            steps <= 100,
            0 < den <= 0x4000_0000,
            num < 0x100_0000_0000_0000_0000_0000_0000_0000,
            unit >= 1,
            whole == den * unit,
            unit == 1 || 0x100_0000 * whole <= 2 * num,
            whole <= 0x200_0000_0000_0000_0000_0000_0000,
            spacing(num as nat, den as nat, unit as nat, steps as nat) == spacing(
                num as nat,
                den as nat,
                1,
                100,
            ),
        decreases steps,
    {
        assert(unit <= whole) by (nonlinear_arith)
            requires
                whole == den * unit,
                den > 0,
        ;
        assert(den * (2 * unit) == 2 * (den * unit)) by (nonlinear_arith);
        unit = unit * 2;
        whole = whole * 2;
        steps = steps - 1;
    }
    assert(spacing(num as nat, den as nat, unit as nat, steps as nat) == unit);
    assert(unit <= whole) by (nonlinear_arith)
        requires
            whole == den * unit,
            den > 0,
    ;
    let q: u128 = rounded(num, whole);
    assert(q * unit <= num + unit && (den > 1 && unit > 1 ==> q * unit <= num) && (unit == 1 && den > 1 ==> q <= num))
        by (nonlinear_arith)
        requires
            q == round_half_even(num as nat, whole as nat),
            whole == den * unit,
            den > 0,
            unit >= 1,
            unit == 1 || 0x100_0000 * whole <= 2 * num,
    {
        let f = num as nat / whole as nat;
        assert(f * whole <= num);
        assert(q <= f + 1);
        assert(q > f ==> 2 * (num as nat % whole as nat) >= whole);
        assert(num as nat == f * whole + num as nat % whole as nat);
        assert(q * whole <= num + whole);
        assert(q * unit <= q * whole);
        assert(2 * (q * whole) <= 2 * num + whole);
        if den >= 2 {
            assert(2 * unit <= whole);
            assert(q * (2 * unit) <= q * whole);
            assert(2 * (q * unit) == q * (2 * unit));
        }
    }
    q * unit
}

/// The seconds of a span, in units, as single precision has them.
pub open spec fn seconds_of(nanos: nat) -> nat {
    let whole = nearest(nanos / 1_000_000_000 * second(), 1);
    let part = nearest(nearest(nanos % 1_000_000_000 * second(), 1), 1_000_000_000);
    nearest(whole + part, 1)
}

/// The minutes of that many units.
pub open spec fn minutes_of(units: nat) -> nat {
    nearest(units, 60) / second()
}

/// The seconds that are left of `units` beside `minutes`, as text.
pub open spec fn left_text(units: nat, minutes: nat) -> Seq<char> {
    let taken = nearest(minutes * 60 * second(), 1);
    if taken <= units {
        dec(round_half_even(nearest((units - taken) as nat, 1), second()))
    } else {
        "-"@ + dec(round_half_even(nearest((taken - units) as nat, 1), second()))
    }
}

/// How a span reads: milliseconds below a second, seconds with one decimal
/// below a minute, whole minutes and the seconds left over from there on.
pub open spec fn span_text(nanos: nat) -> Seq<char> {
    let units = seconds_of(nanos);
    if units < second() {
        dec(nanos / 1_000_000) + "ms"@
    } else if units < 60 * second() {
        one_place(round_half_even(units * 10, second())) + "s"@
    } else {
        dec(minutes_of(units)) + "m"@ + left_text(units, minutes_of(units)) + "s"@
    }
}

/// Whether the span can be shown: its seconds, and its minutes counted in
/// seconds, fit in 64 bits.
pub open spec fn is_showable(nanos: nat) -> bool {
    &&& nanos / 1_000_000_000 <= u64::MAX
    &&& minutes_of(seconds_of(nanos)) * 60 <= u64::MAX
}

/// The span as text.
pub fn format_duration(d: Duration) -> (r: String)
    requires
        is_showable(d.nanos as nat),
    ensures
        r@ == span_text(d.nanos as nat),
{
    let unit: u128 = 0x40_0000_0000_0000;
    let whole: u128 = nearest_to(d.nanos / 1_000_000_000 * unit, 1);
    let rest: u128 = nearest_to(d.nanos % 1_000_000_000 * unit, 1);
    let part: u128 = nearest_to(rest, 1_000_000_000);
    let units: u128 = nearest_to(whole + part, 1);
    if units < unit {
        let mut r = dec_string(d.nanos / 1_000_000);
        r.append("ms");
        r
    } else if units < 60 * unit {
        let mut r = one_place_string(rounded(units * 10, unit));
        r.append("s");
        r
    } else {
        let minutes: u128 = nearest_to(units, 60) / unit;
        let mut r = dec_string(minutes);
        r.append("m");
        let taken: u128 = nearest_to(minutes * 60 * unit, 1);
        if taken <= units {
            let left = dec_string(rounded(nearest_to(units - taken, 1), unit));
            r.append(left.as_str());
        } else {
            r.append("-");
            let left = dec_string(rounded(nearest_to(taken - units, 1), unit));
            r.append(left.as_str());
        }
        r.append("s");
        r
    }
}

proof fn lemma_spacing(num: nat, den: nat, unit: nat, steps: nat)
    requires
        unit >= 1,
    ensures
        spacing(num, den, unit, steps) >= 1,
        spacing(num, den, unit, steps) == unit || 0x100_0000 * (den * spacing(num, den, unit, steps)) <= 2
            * num,
    decreases steps,
{
    if !(steps == 0 || num < 0x100_0000 * (den * unit)) {
        lemma_spacing(num, den, 2 * unit, (steps - 1) as nat);
        assert(den * (2 * unit) == 2 * (den * unit)) by (nonlinear_arith);
    }
}

/// A number with a mantissa of 24 bits is near the quotient that it stands for: it is off by no
/// more than a half, or by no more than one part in 2^24. One that is small enough is the
/// nearest whole number.
pub proof fn law_single_precision_is_near(num: nat, den: nat)
    requires
        den > 0,
    ensures
        0x100_0000 * (nearest(num, den) * den) <= 0x100_0000 * num + num + 0x80_0000 * den,
        0x100_0000 * num <= 0x100_0000 * (nearest(num, den) * den) + num + 0x80_0000 * den,
        num < 0x100_0000 * den ==> nearest(num, den) == round_half_even(num, den),
{
    let unit = spacing(num, den, 1, 100);
    lemma_spacing(num, den, 1, 100);
    let whole = den * unit;
    assert(whole > 0) by (nonlinear_arith)
        requires
            whole == den * unit,
            den > 0,
            unit >= 1,
    ;
    let q = round_half_even(num, whole);
    crate::decimal::law_rounding_is_to_the_nearest(num, whole);
    assert((q * unit) * den == q * whole) by (nonlinear_arith)
        requires
            whole == den * unit,
    ;
    assert(unit == 1 ==> whole == den) by (nonlinear_arith)
        requires
            whole == den * unit,
    ;
    if num < 0x100_0000 * den {
        assert(den * 1 == den);
        assert(unit == 1);
        assert(q * 1 == q);
    }
}

/// How far the seconds of a span, in units, are from the span: by no more than three parts in
/// 2^23, and a little for the smallest spans.
proof fn lemma_seconds_of(nanos: nat)
    ensures
        ({
            let units = seconds_of(nanos);
            let exact = nanos * second();
            &&& 0x20_0000 * (units * 1_000_000_000) <= 0x20_0000 * exact + exact + 0x1_0000_0000_0000_0000
            &&& 0x20_0000 * exact <= 0x20_0000 * (units * 1_000_000_000) + exact + 0x1_0000_0000_0000_0000
        }),
{
    let s = nanos / 1_000_000_000;
    let f = nanos % 1_000_000_000;
    let whole = nearest(s * second(), 1);
    let rest = nearest(f * second(), 1);
    let part = nearest(rest, 1_000_000_000);
    let units = nearest(whole + part, 1);
    law_single_precision_is_near(s * second(), 1);
    law_single_precision_is_near(f * second(), 1);
    law_single_precision_is_near(rest, 1_000_000_000);
    law_single_precision_is_near(whole + part, 1);
    assert(units == seconds_of(nanos));
    assert(nanos == s * 1_000_000_000 + f);
    assert(s * second() == s * 0x40_0000_0000_0000);
    assert(whole * 1 == whole && rest * 1 == rest && units * 1 == units);
}

/// A span below a second reads in milliseconds, as long as single precision can tell it from a
/// second.
pub proof fn law_short_spans_read_in_milliseconds(nanos: nat)
    requires
        nanos <= 999_990_000,
    ensures
        span_text(nanos) == dec(nanos / 1_000_000) + "ms"@,
{
    lemma_seconds_of(nanos);
}

/// A span between a second and a minute reads in tenths of a second, to the nearest one as far
/// as single precision can tell.
pub proof fn law_spans_read_in_tenths_of_seconds(nanos: nat)
    requires
        1_000_010_000 <= nanos <= 59_999_000_000,
    ensures
        exists|t: nat| #[trigger]
            one_place(t) + "s"@ == span_text(nanos) && 100_000_000 * t <= nanos + 50_050_000 && nanos
                <= 100_000_000 * t + 50_050_000,
{
    lemma_seconds_of(nanos);
    let units = seconds_of(nanos);
    let t = round_half_even(units * 10, second());
    crate::decimal::law_rounding_is_to_the_nearest(units * 10, second());
    assert(t * second() == t * 0x40_0000_0000_0000);
    assert(one_place(t) + "s"@ == span_text(nanos));
}

/// A span of a minute and more reads in minutes and the seconds that are left, which together
/// are the span to the nearest second, as far as single precision can tell. The seconds are
/// below zero where it takes the span for a minute more than it is.
pub proof fn law_long_spans_read_in_minutes(nanos: nat)
    requires
        nanos >= 60_001_000_000,
    ensures
        exists|m: nat, k: nat|
            {
                ||| #[trigger] minutes_text(m, dec(k)) == span_text(nanos) && is_about(
                    60int * m + k,
                    nanos,
                )
                ||| minutes_text(m, "-"@ + dec(k)) == span_text(nanos) && is_about(60 * m - k, nanos)
            },
{
    lemma_seconds_of(nanos);
    let units = seconds_of(nanos);
    let m = minutes_of(units);
    let sixtieth = nearest(units, 60);
    let taken = nearest(m * 60 * second(), 1);
    law_single_precision_is_near(units, 60);
    law_single_precision_is_near(m * 60 * second(), 1);
    assert(taken * 1 == taken);
    assert(m * 60 * second() == m * 60 * 0x40_0000_0000_0000);
    assert(m * 0x40_0000_0000_0000 <= sixtieth);
    if taken <= units {
        let apart = nearest((units - taken) as nat, 1);
        let k = round_half_even(apart, second());
        law_single_precision_is_near((units - taken) as nat, 1);
        crate::decimal::law_rounding_is_to_the_nearest(apart, second());
        assert(apart * 1 == apart);
        assert(k * second() == k * 0x40_0000_0000_0000);
        assert(minutes_text(m, dec(k)) == span_text(nanos));
        assert(is_about(60int * m + k, nanos));
    } else {
        let apart = nearest((taken - units) as nat, 1);
        let k = round_half_even(apart, second());
        law_single_precision_is_near((taken - units) as nat, 1);
        crate::decimal::law_rounding_is_to_the_nearest(apart, second());
        assert(apart * 1 == apart);
        assert(k * second() == k * 0x40_0000_0000_0000);
        let told = "-"@ + dec(k);
        assert(minutes_text(m, told) == span_text(nanos));
        assert(is_about(60 * m - k, nanos));
        assert(minutes_text(m, dec(k)) == minutes_text(m, dec(k)));
    }
}

/// Minutes and seconds as they are written.
pub open spec fn minutes_text(minutes: nat, seconds: Seq<char>) -> Seq<char> {
    dec(minutes) + "m"@ + seconds + "s"@
}

/// Whether so many seconds are the span, to the nearest second and one part in 500000.
pub open spec fn is_about(seconds: int, nanos: nat) -> bool {
    &&& 2 * (seconds * 1_000_000_000) <= 2 * nanos + 1_000_000_000 + nanos / 500_000
    &&& 2 * nanos <= 2 * (seconds * 1_000_000_000) + 1_000_000_000 + nanos / 500_000
}

/// A span is written as it reads.
pub proof fn law_span_is_written_as_it_reads(d: Duration, r: String)
    requires
        call_ensures(format_duration, (d,), r),
    ensures
        r@ == span_text(d.nanos as nat),
        d.nanos <= 999_990_000 ==> r@ == dec(d.nanos as nat / 1_000_000) + "ms"@,
{
    if d.nanos <= 999_990_000 {
        law_short_spans_read_in_milliseconds(d.nanos as nat);
    }
}

} // verus!
