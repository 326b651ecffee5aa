//! Quotients with a fixed number of decimal places.
//!
//! A quotient is shown the way binary floating point shows it: it is first
//! rounded to the nearest number with a mantissa of 53 bits, and that number is
//! then rounded to the decimal places wanted. Both roundings go to the nearest
//! value and, from halfway between two, to the even one.

use vstd::prelude::*;
use crate::number::{dec, dec2, dec2_string, dec_string, digit};

verus! {

/// `num / den` rounded to the nearest integer, from halfway to the even one.
pub open spec fn round_half_even(num: nat, den: nat) -> nat {
    let q = num / den;
    let twice = 2 * (num % den);
    if twice < den || (twice == den && q % 2 == 0) {
        q
    } else {
        q + 1
    }
}

/// `num / den` rounded to the nearest integer, from halfway to the even one.
pub fn rounded(num: u128, den: u128) -> (r: u128)
    requires
        0 < den < 0x8000_0000_0000_0000_0000_0000_0000_0000,
        num < u128::MAX,
    ensures
        r == round_half_even(num as nat, den as nat),
        r <= num + 1,
{
    let q: u128 = num / den;
    let twice: u128 = 2 * (num % den);
    assert(q <= num) by (nonlinear_arith)
        requires
            q == num / den,
            den > 0,
    ;
    if twice < den || (twice == den && q % 2 == 0) {
        q
    } else {
        q + 1
    }
}

/// Two to the power 53, the first integer that a mantissa cannot hold.
pub open spec fn mantissa_limit() -> nat {
    0x20_0000_0000_0000
}

/// The power of two by which `num / den` is scaled to fill a mantissa: `scale`
/// halved until the scaled quotient is below the limit.
pub open spec fn mantissa_scale(num: nat, den: nat, scale: nat) -> nat
    decreases scale,
{
    if scale <= 1 || num * scale < mantissa_limit() * den {
        scale
    } else {
        mantissa_scale(num, den, scale / 2)
    }
}

/// The mantissa of `num / den`, for a quotient of at least one, and the power
/// of two by which it is to be divided.
pub open spec fn binary_quotient(num: nat, den: nat) -> (nat, nat) {
    let scale = mantissa_scale(num, den, 0x10_0000_0000_0000);
    (round_half_even(num * scale, den), scale)
}

/// The tenths of a second that `ms` milliseconds are shown as.
pub open spec fn tenths_of_seconds(ms: nat) -> nat {
    let (mantissa, scale) = binary_quotient(ms, 1000);
    round_half_even(mantissa * 10, scale)
}

/// The tenths of a second that `ms` milliseconds are shown as.
pub fn tenths(ms: u128) -> (r: u128)
    requires
        1000 <= ms < 60_000,
    ensures
        r == tenths_of_seconds(ms as nat),
{
    let mut scale: u128 = 0x10_0000_0000_0000;
    assert(ms * scale < 0x1_0000_0000_0000_0000_0000) by (nonlinear_arith)
        requires
            ms < 60_000,
            scale == 0x10_0000_0000_0000,
    ;
    while scale > 1 && ms * scale >= 0x20_0000_0000_0000 * 1000
        invariant
            1 <= scale <= 0x10_0000_0000_0000,
            ms < 60_000,
            ms * scale < 0x1_0000_0000_0000_0000_0000,
            mantissa_scale(ms as nat, 1000, scale as nat) == mantissa_scale(
                ms as nat,
                1000,
                0x10_0000_0000_0000,
            ),
        decreases scale,
    {
        assert(ms * (scale / 2) <= ms * scale) by (nonlinear_arith);
        scale = scale / 2;
    }
    assert(mantissa_scale(ms as nat, 1000, scale as nat) == scale);
    let mantissa: u128 = rounded(ms * scale, 1000);
    rounded(mantissa * 10, scale)
}

/// `n` tenths as a decimal fraction with one place.
pub open spec fn one_place(n: nat) -> Seq<char> {
    dec(n / 10) + seq!['.', digit(n % 10)]
}

/// `n` tenths as a decimal fraction with one place.
pub fn one_place_string(n: u128) -> (r: String)
    ensures
        r@ == one_place(n as nat),
{
    let mut r = dec_string(n / 10);
    r.push('.');
    let last = dec_string(n % 10);
    r.append(last.as_str());
    assert(r@ =~= one_place(n as nat));
    r
}

/// `n` hundredths as a decimal fraction with two places.
pub open spec fn two_places(n: nat) -> Seq<char> {
    dec(n / 100) + seq!['.'] + dec2(n % 100)
}

/// `n` hundredths as a decimal fraction with two places.
pub fn two_places_string(n: u128) -> (r: String)
    ensures
        r@ == two_places(n as nat),
{
    let mut r = dec_string(n / 100);
    r.push('.');
    let last = dec2_string(n % 100);
    r.append(last.as_str());
    assert(r@ =~= two_places(n as nat));
    r
}

/// The distance between neighbouring mantissas at `n`: `unit` doubled until
/// `n` is below the limit when counted in it.
pub open spec fn mantissa_unit(n: nat, unit: nat, steps: nat) -> nat
    decreases steps,
{
    if steps == 0 || n < mantissa_limit() * unit {
        unit
    } else {
        mantissa_unit(n, 2 * unit, (steps - 1) as nat)
    }
}

/// The integer below 2^64 rounded to what a mantissa of 53 bits can hold.
pub open spec fn binary_integer(n: nat) -> nat {
    let unit = mantissa_unit(n, 1, 11);
    round_half_even(n, unit) * unit
}

/// `n` rounded to what a mantissa of 53 bits can hold.
pub fn to_binary(n: u64) -> (r: u128)
    ensures
        r == binary_integer(n as nat),
        r <= 0x8_0000_0000_0000_0000,
{
    let mut unit: u128 = 1;
    let mut steps: u128 = 11;
    while steps > 0 && n as u128 >= 0x20_0000_0000_0000 * unit
        invariant
            1 <= unit <= 2048,
            steps <= 11,
            unit == 2048 || steps > 0,
            steps == 11 ==> unit == 1,
            steps == 10 ==> unit == 2,
            steps == 9 ==> unit == 4,
            steps == 8 ==> unit == 8,
            steps == 7 ==> unit == 16,
            steps == 6 ==> unit == 32,
            steps == 5 ==> unit == 64,
            steps == 4 ==> unit == 128,
            steps == 3 ==> unit == 256,
            steps == 2 ==> unit == 512,
            steps == 1 ==> unit == 1024,
            mantissa_unit(n as nat, unit as nat, steps as nat) == mantissa_unit(n as nat, 1, 11),
        decreases steps,
    {
        unit = unit * 2;
        steps = steps - 1;
    }
    assert(mantissa_unit(n as nat, unit as nat, steps as nat) == unit);
    let q: u128 = rounded(n as u128, unit);
    assert(q * unit <= 0x8_0000_0000_0000_0000) by (nonlinear_arith)
        requires
            q == round_half_even(n as nat, unit as nat),
            n <= u64::MAX,
            1 <= unit <= 2048,
    {
        assert((n as nat / unit as nat) * unit <= n);
        assert(q <= n as nat / unit as nat + 1);
    }
    q * unit
}

/// Rounding gives the nearest whole number: it is off by no more than a half. From halfway it
/// gives the even one, and a whole number stays as it is.
pub proof fn law_rounding_is_to_the_nearest(num: nat, den: nat)
    requires
        den > 0,
    ensures
        2 * (round_half_even(num, den) * den) <= 2 * num + den,
        2 * num <= 2 * (round_half_even(num, den) * den) + den,
        2 * (round_half_even(num, den) * den) == 2 * num + den || 2 * num == 2 * (round_half_even(
            num,
            den,
        ) * den) + den ==> round_half_even(num, den) % 2 == 0,
        round_half_even(num * den, den) == num,
{
    let q = num / den;
    let m = num % den;
    assert(num == q * den + m) by {
        vstd::arithmetic::div_mod::lemma_fundamental_div_mod(num as int, den as int);
        assert(den * q == q * den) by (nonlinear_arith);
    }
    assert(0 <= m < den);
    assert((q + 1) * den == q * den + den) by (nonlinear_arith);
    if round_half_even(num, den) == q {
    } else {
        assert(round_half_even(num, den) == q + 1);
        if 2 * ((q + 1) * den) == 2 * num + den {
            assert(2 * m == den);
            assert(q % 2 != 0);
        }
    }
    vstd::arithmetic::div_mod::lemma_div_multiples_vanish(num as int, den as int);
    vstd::arithmetic::div_mod::lemma_mod_multiples_basic(num as int, den as int);
    assert(den * num == num * den) by (nonlinear_arith);
    assert((num * den) / den == num);
    assert((num * den) % den == 0);
}

/// The scale by which a quotient is brought to a mantissa is never halved too often.
proof fn lemma_mantissa_scale(num: nat, den: nat, scale: nat)
    requires
        scale >= 1,
    ensures
        1 <= mantissa_scale(num, den, scale) <= scale,
        mantissa_scale(num, den, scale) == scale || 2 * (num * mantissa_scale(num, den, scale)) + 2 * num
            >= mantissa_limit() * den,
    decreases scale,
{
    if scale <= 1 || num * scale < mantissa_limit() * den {
    } else {
        lemma_mantissa_scale(num, den, scale / 2);
        let half = scale / 2;
        if mantissa_scale(num, den, half) == half {
            assert(num * scale <= 2 * (num * half) + num) by (nonlinear_arith)
                requires
                    scale <= 2 * half + 1,
            ;
        }
    }
}

/// The tenths of a second of a span are the nearest ones: they are off by no more than fifty
/// milliseconds.
pub proof fn law_tenths_are_nearest(ms: nat)
    requires
        1000 <= ms < 60_000,
    ensures
        100 * tenths_of_seconds(ms) <= ms + 50,
        ms <= 100 * tenths_of_seconds(ms) + 50,
{
    let scale = mantissa_scale(ms, 1000, 0x10_0000_0000_0000);
    lemma_mantissa_scale(ms, 1000, 0x10_0000_0000_0000);
    let m = round_half_even(ms * scale, 1000);
    let t = round_half_even(m * 10, scale);
    assert(scale > 1000) by (nonlinear_arith)
        requires
            scale == 0x10_0000_0000_0000 || 2 * (ms * scale) + 2 * ms >= 0x20_0000_0000_0000 * 1000,
            ms < 60_000,
    ;
    law_rounding_is_to_the_nearest(ms * scale, 1000);
    law_rounding_is_to_the_nearest(m * 10, scale);
    let (ts, mss) = (t * scale, ms * scale);
    assert(100 * ts <= mss + 50 * scale + 500) by {
        assert(2 * ts <= 20 * m + scale);
        assert(2000 * m <= 2 * mss + 1000);
    }
    assert(mss <= 100 * ts + 50 * scale + 500) by {
        assert(20 * m <= 2 * ts + scale);
        assert(2 * mss <= 2000 * m + 1000);
    }
    assert(100 * t <= ms + 50) by (nonlinear_arith)
        requires
            100 * (t * scale) <= ms * scale + 50 * scale + 500,
            scale > 1000,
    {
        if 100 * t >= ms + 51 {
            assert((100 * t) * scale >= (ms + 51) * scale);
        }
    }
    assert(ms <= 100 * t + 50) by (nonlinear_arith)
        requires
            ms * scale <= 100 * (t * scale) + 50 * scale + 500,
            scale > 1000,
    {
        if ms >= 100 * t + 51 {
            assert(ms * scale >= (100 * t + 51) * scale);
        }
    }
}

/// A fraction is written with its whole part, a point, and as many digits as it has places.
pub proof fn law_fractions_are_written_out(whole: nat, tenth: nat, hundredth: nat)
    requires
        tenth < 10,
        hundredth < 100,
    ensures
        one_place(whole * 10 + tenth) == dec(whole) + seq!['.'] + dec(tenth),
        two_places(whole * 100 + hundredth) == dec(whole) + seq!['.'] + dec2(hundredth),
        dec(tenth).len() == 1,
        dec2(hundredth).len() == 2,
{
    assert((whole * 10 + tenth) / 10 == whole);
    assert((whole * 10 + tenth) % 10 == tenth);
    assert((whole * 100 + hundredth) / 100 == whole);
    assert((whole * 100 + hundredth) % 100 == hundredth);
    assert(one_place(whole * 10 + tenth) =~= dec(whole) + seq!['.'] + dec(tenth));
    if hundredth >= 10 {
        assert(dec(hundredth / 10).len() == 1);
    }
}

/// A number that a mantissa of 53 bits can hold stays as it is; a larger one of 64 bits is off
/// by no more than half of the distance to the next, which is 2048 at most.
pub proof fn law_mantissa_holds_small_numbers(n: nat)
    requires
        n <= u64::MAX,
    ensures
        n < 0x20_0000_0000_0000 ==> binary_integer(n) == n,
        binary_integer(n) <= n + 1024,
        n <= binary_integer(n) + 1024,
{
    let unit = mantissa_unit(n, 1, 11);
    lemma_mantissa_unit(n, 1, 11);
    law_rounding_is_to_the_nearest(n, unit);
    if n < 0x20_0000_0000_0000 {
        assert(unit == 1);
        law_rounding_is_to_the_nearest(n, 1);
        assert(n * 1 == n);
    }
}

proof fn lemma_mantissa_unit(n: nat, unit: nat, steps: nat)
    requires
        steps <= 11,
        1 <= unit,
        steps == 11 ==> unit <= 1,
        steps == 10 ==> unit <= 2,
        steps == 9 ==> unit <= 4,
        steps == 8 ==> unit <= 8,
        steps == 7 ==> unit <= 16,
        steps == 6 ==> unit <= 32,
        steps == 5 ==> unit <= 64,
        steps == 4 ==> unit <= 128,
        steps == 3 ==> unit <= 256,
        steps == 2 ==> unit <= 512,
        steps == 1 ==> unit <= 1024,
        steps == 0 ==> unit <= 2048,
    ensures
        1 <= mantissa_unit(n, unit, steps) <= 2048,
    decreases steps,
{
    if !(steps == 0 || n < mantissa_limit() * unit) {
        lemma_mantissa_unit(n, 2 * unit, (steps - 1) as nat);
    }
}

/// What is rounded and written is rounded to the nearest and written out.
pub proof fn law_rounded_numbers_handed_out(
    num: u128,
    den: u128,
    q: u128,
    ms: u128,
    t: u128,
    n: u128,
    one: String,
    two: String,
    bytes: u64,
    binary: u128,
)
    requires
        den > 0,
        1000 <= ms < 60_000,
        call_ensures(rounded, (num, den), q),
        call_ensures(tenths, (ms,), t),
        call_ensures(one_place_string, (n,), one),
        call_ensures(two_places_string, (n,), two),
        call_ensures(to_binary, (bytes,), binary),
    ensures
        2 * (q * den) <= 2 * num + den,
        2 * num <= 2 * (q * den) + den,
        100 * t <= ms + 50,
        ms <= 100 * t + 50,
        one@ == dec(n as nat / 10) + seq!['.'] + dec(n as nat % 10),
        two@ == dec(n as nat / 100) + seq!['.'] + dec2(n as nat % 100),
        bytes < 0x20_0000_0000_0000 ==> binary == bytes,
{
    law_rounding_is_to_the_nearest(num as nat, den as nat);
    law_tenths_are_nearest(ms as nat);
    law_fractions_are_written_out(n as nat / 10, n as nat % 10, n as nat % 100);
    law_fractions_are_written_out(n as nat / 100, n as nat % 10, n as nat % 100);
    law_mantissa_holds_small_numbers(bytes as nat);
    assert(n as nat == (n as nat / 10) * 10 + n as nat % 10);
    assert(n as nat == (n as nat / 100) * 100 + n as nat % 100);
}

} // verus!
