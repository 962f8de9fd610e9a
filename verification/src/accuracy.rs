//! How near rounded numbers are to exact values.
use crate::binary64;
use crate::binary64::{HIDDEN, INFINITE};
use crate::dt;
use vstd::arithmetic::mul::*;
use vstd::arithmetic::power2::*;
use vstd::prelude::*;

verus! {

/// Whether a number differs from an exact value by no more than one part in 2^53 of itself.
pub open spec fn near(exact: nat, approximate: nat) -> bool {
    &&& 0x1F_FFFF_FFFF_FFFF * approximate <= 0x20_0000_0000_0000 * exact
    &&& 0x20_0000_0000_0000 * exact <= 0x20_0000_0000_0001 * approximate
}

/// Whether a number is near another that is near an exact value.
pub open spec fn near_twice(exact: nat, approximate: nat) -> bool {
    &&& 0x1F_FFFF_FFFF_FFFF * (0x1F_FFFF_FFFF_FFFF * approximate) <= 0x20_0000_0000_0000 * (
    0x20_0000_0000_0000 * exact)
    &&& 0x20_0000_0000_0000 * (0x20_0000_0000_0000 * exact) <= 0x20_0000_0000_0001 * (
    0x20_0000_0000_0001 * approximate)
}

/// Rounding to a normal number changes a value by no more than one part in 2^53 of the result.
pub proof fn lemma_rounding_error(n: nat, d: nat, r: nat)
    requires
        d > 0,
        binary64::nearest(n, d, r),
        HIDDEN <= r < INFINITE,
    ensures
        near(n, binary64::units(r) * d),
{
    let h = HIDDEN as nat;
    let u = binary64::units(r);
    let g = pow2(binary64::scale(r));
    let below = pow2(binary64::scale((r - 1) as nat));
    binary64::lemma_units_step(r);
    binary64::lemma_units_step((r - 1) as nat);
    vstd::arithmetic::div_mod::lemma_div_is_ordered((r - 1) as int, r as int, h as int);
    if binary64::scale((r - 1) as nat) < binary64::scale(r) {
        lemma_pow2_strictly_increases(binary64::scale((r - 1) as nat), binary64::scale(r));
    }
    assert(below <= g);
    assert(h * g <= u) by (nonlinear_arith)
        requires
            u == binary64::significand(r) * g,
            binary64::significand(r) >= h,
    ;
    assert(0x10_0000_0000_0000 * (g * d) <= u * d) by (nonlinear_arith)
        requires
            0x10_0000_0000_0000 * g <= u,
    ;
    assert((u + (u + g)) * d == 2 * (u * d) + g * d) by (nonlinear_arith);
    assert(((u - below) + u) * d >= 2 * (u * d) - g * d) by (nonlinear_arith)
        requires
            below <= g,
            d > 0,
    ;
    assert(binary64::units((r - 1) as nat) == u - below);
}

/// The sum of whole seconds and of a fraction, each rounded, is near the exact sum.
proof fn lemma_parts_add_up(a: nat, b: nat, whole: nat, part: nat)
    requires
        near(whole, a),
        near(part, b * 1_000_000_000),
    ensures
        near(whole * 1_000_000_000 + part, (a + b) * 1_000_000_000),
{
}

/// A whole number of seconds, rounded, is near the exact number.
proof fn lemma_whole_near(s: nat)
    requires
        s <= u64::MAX,
    ensures
        ({
            let a = binary64::units(binary64::rounded(s * binary64::one(), 1));
            &&& near(s * binary64::one(), a)
            &&& a <= pow2(1138)
            &&& s > 0 ==> pow2(1074) <= a
        }),
{
    let u = binary64::one();
    let r = binary64::rounded(s * u, 1);
    binary64::lemma_rounded(s * u, 1);
    binary64::lemma_zero_units();
    if s == 0 {
        assert(0nat * u == 0) by (nonlinear_arith);
        binary64::lemma_rounded_exact(0, 1);
    } else {
        lemma2_to64();
        lemma2_to64_rest();
        lemma_pow2_adds(64, 1074);
        binary64::lemma_power_units(1074);
        binary64::lemma_power_units(1138);
        lemma_mul_inequality(1, s as int, u as int);
        lemma_mul_inequality(s as int, 0x1_0000_0000_0000_0000, u as int);
        binary64::lemma_nearest_between(
            s * u,
            1,
            r,
            binary64::power_pattern(1074),
            binary64::power_pattern(1138),
        );
        binary64::lemma_units_ordered(binary64::power_pattern(1074), r);
        binary64::lemma_units_ordered(r, binary64::power_pattern(1138));
        lemma_rounding_error(s * u, 1, r);
    }
}

/// A fraction of a second, rounded, is near the exact fraction.
proof fn lemma_fraction_near(f: nat)
    requires
        f < 1_000_000_000,
    ensures
        ({
            let b = binary64::units(binary64::rounded(f * binary64::one(), 1_000_000_000));
            &&& near(f * binary64::one(), b * 1_000_000_000)
            &&& b <= pow2(1074)
            &&& f > 0 ==> pow2(1044) <= b
        }),
{
    let u = binary64::one();
    let g = 1_000_000_000nat;
    let r = binary64::rounded(f * u, g);
    binary64::lemma_rounded(f * u, g);
    binary64::lemma_zero_units();
    if f == 0 {
        assert(0nat * u == 0) by (nonlinear_arith);
        binary64::lemma_rounded_exact(0, g);
    } else {
        lemma2_to64();
        lemma_pow2_adds(30, 1044);
        lemma_pow2_pos(1044);
        binary64::lemma_power_units(1044);
        binary64::lemma_power_units(1074);
        lemma_mul_inequality(1, f as int, u as int);
        lemma_mul_inequality(f as int, g as int, u as int);
        binary64::lemma_nearest_between(
            f * u,
            g,
            r,
            binary64::power_pattern(1044),
            binary64::power_pattern(1074),
        );
        binary64::lemma_units_ordered(binary64::power_pattern(1044), r);
        binary64::lemma_units_ordered(r, binary64::power_pattern(1074));
        lemma_rounding_error(f * u, g, r);
    }
}

/// A length of time in seconds is within about two parts in 2^53 of the exact value.
pub proof fn lemma_seconds_near(t: nat)
    requires
        0 < t < binary64::time_limit(),
    ensures
        near_twice(t * binary64::one(), binary64::units(dt::seconds_of(t)) * 1_000_000_000),
        binary64::power_pattern(1044) <= dt::seconds_of(t) <= binary64::power_pattern(1139),
{
    let s = t / 1_000_000_000;
    let f = t % 1_000_000_000;
    let o = binary64::one();
    let a = binary64::units(binary64::rounded(s * o, 1));
    let b = binary64::units(binary64::rounded(f * o, 1_000_000_000));
    let r = dt::seconds_of(t);
    let x = a + b;
    lemma_whole_near(s);
    lemma_fraction_near(f);
    lemma_parts_add_up(a, b, s * o, f * o);
    assert(s * o * 1_000_000_000 + f * o == t * o) by (nonlinear_arith)
        requires
            t == s * 1_000_000_000 + f,
    ;
    binary64::lemma_rounded(x, 1);
    binary64::lemma_power_units(1044);
    binary64::lemma_power_units(1139);
    lemma_pow2_unfold(1139);
    lemma_pow2_strictly_increases(1044, 1074);
    lemma_pow2_strictly_increases(1074, 1138);
    binary64::lemma_nearest_between(
        x,
        1,
        r,
        binary64::power_pattern(1044),
        binary64::power_pattern(1139),
    );
    lemma_rounding_error(x, 1, r);
}

/// A quotient of near values, without its fraction, counts no more multiples of the divisor than
/// there are.
proof fn lemma_count_fits(e: nat, d: nat, r: nat, u: nat, v: nat, m: nat, o: nat)
    requires
        e < 0x4_0000_0000_0000,
        o > 0,
        near_twice(e * o, u * 1_000_000_000),
        near_twice(d * o, v * 1_000_000_000),
        near(u * o, m * v),
        r * o <= m,
    ensures
        r * d <= e,
{
    let a = r * v;
    let po = (r * d) * o;
    assert(0x1F_FFFF_FFFF_FFFF * a <= 0x20_0000_0000_0000 * u) by {
        assert(a * o <= m * v) by (nonlinear_arith)
            requires
                a == r * v,
                r * o <= m,
        ;
        assert(0x1F_FFFF_FFFF_FFFF * a <= 0x20_0000_0000_0000 * u) by (nonlinear_arith)
            requires
                0x1F_FFFF_FFFF_FFFF * (a * o) <= 0x20_0000_0000_0000 * (u * o),
                o > 0,
        ;
    }
    assert(0x20_0000_0000_0000 * (0x20_0000_0000_0000 * po) <= 0x20_0000_0000_0001 * (
    0x20_0000_0000_0001 * (a * 1_000_000_000))) by (nonlinear_arith)
        requires
            a == r * v,
            po == (r * d) * o,
            0x20_0000_0000_0000 * (0x20_0000_0000_0000 * (d * o)) <= 0x20_0000_0000_0001 * (
            0x20_0000_0000_0001 * (v * 1_000_000_000)),
    ;
    if r * d > e {
        let eo = e * o;
        assert(po >= eo + o) by (nonlinear_arith)
            requires
                po == (r * d) * o,
                eo == e * o,
                r * d >= e + 1,
        ;
        assert(8 * eo <= 0x20_0000_0000_0000 * o) by (nonlinear_arith)
            requires
                eo == e * o,
                8 * e <= 0x20_0000_0000_0000,
        ;
        assert(false);
    }
}

/// A quotient of near values, without its fraction, is short by no more than one multiple.
proof fn lemma_count_reaches(e: nat, d: nat, r: nat, u: nat, v: nat, m: nat, o: nat)
    requires
        e < 0x4_0000_0000_0000,
        o > 0,
        near_twice(e * o, u * 1_000_000_000),
        near_twice(d * o, v * 1_000_000_000),
        near(u * o, m * v),
        m <= (r + 1) * o,
    ensures
        e <= (r + 1) * d,
{
    let a = (r + 1) * v;
    let w = (r + 1) * d;
    let wo = w * o;
    assert(0x20_0000_0000_0000 * u <= 0x20_0000_0000_0001 * a) by {
        assert(m * v <= a * o) by (nonlinear_arith)
            requires
                a == (r + 1) * v,
                m <= (r + 1) * o,
        ;
        assert(0x20_0000_0000_0000 * u <= 0x20_0000_0000_0001 * a) by (nonlinear_arith)
            requires
                0x20_0000_0000_0000 * (u * o) <= 0x20_0000_0000_0001 * (a * o),
                o > 0,
        ;
    }
    assert(0x1F_FFFF_FFFF_FFFF * (0x1F_FFFF_FFFF_FFFF * (a * 1_000_000_000)) <= 0x20_0000_0000_0000
        * (0x20_0000_0000_0000 * wo)) by (nonlinear_arith)
        requires
            a == (r + 1) * v,
            wo == ((r + 1) * d) * o,
            0x1F_FFFF_FFFF_FFFF * (0x1F_FFFF_FFFF_FFFF * (v * 1_000_000_000))
                <= 0x20_0000_0000_0000 * (0x20_0000_0000_0000 * (d * o)),
    ;
    if e > w {
        let eo = e * o;
        assert(eo >= wo + o) by (nonlinear_arith)
            requires
                wo == w * o,
                eo == e * o,
                e >= w + 1,
        ;
        assert(8 * wo <= 0x20_0000_0000_0000 * o) by (nonlinear_arith)
            requires
                wo == w * o,
                8 * w <= 0x20_0000_0000_0000,
        ;
        assert(false);
    }
}

/// How often a length of time goes into another one, by the quotient of both in seconds without
/// its fraction: no more often than it does, and short by no more than one. This holds below
/// 2^50 nanoseconds, about thirteen days.
pub proof fn lemma_quotient_counts(e: nat, d: nat)
    requires
        0 < e < 0x4_0000_0000_0000,
        0 < d < binary64::time_limit(),
    ensures
        ({
            let q = binary64::rounded(
                binary64::units(dt::seconds_of(e)) * binary64::one(),
                binary64::units(dt::seconds_of(d)),
            );
            let r = binary64::units(q) / binary64::one();
            r * d <= e <= (r + 1) * d
        }),
{
    let o = binary64::one();
    let u = binary64::units(dt::seconds_of(e));
    let v = binary64::units(dt::seconds_of(d));
    let q = binary64::rounded(u * o, v);
    let m = binary64::units(q);
    let r = m / o;
    lemma_pow2_pos(1074);
    lemma_seconds_near(e);
    lemma_seconds_near(d);
    binary64::lemma_seconds_positive(d / 1_000_000_000, d % 1_000_000_000);
    binary64::lemma_rounded(u * o, v);
    binary64::lemma_quotient_between(dt::seconds_of(e), dt::seconds_of(d), q);
    lemma_rounding_error(u * o, v, q);
    vstd::arithmetic::div_mod::lemma_fundamental_div_mod(m as int, o as int);
    let left = m % o;
    assert(r * o <= m < (r + 1) * o) by (nonlinear_arith)
        requires
            m == o * r + left,
            left < o,
    ;
    lemma_count_fits(e, d, r, u, v, m, o);
    lemma_count_reaches(e, d, r, u, v, m, o);
}

/// The pattern of the number one.
pub open spec fn one_pattern() -> nat {
    0x3FF0_0000_0000_0000
}

/// A length of time divided by itself, both in seconds, is one, and by one not more than half as
/// long it is more than one.
pub proof fn lemma_quotient_and_one(e: nat, d: nat)
    requires
        0 < d < binary64::time_limit(),
        d <= e < binary64::time_limit(),
    ensures
        ({
            let q = binary64::rounded(
                binary64::units(dt::seconds_of(e)) * binary64::one(),
                binary64::units(dt::seconds_of(d)),
            );
            &&& e == d ==> q == one_pattern()
            &&& e >= 2 * d ==> q > one_pattern()
        }),
{
    let o = binary64::one();
    let u = binary64::units(dt::seconds_of(e));
    let v = binary64::units(dt::seconds_of(d));
    let p = binary64::power_pattern(1074);
    assert(p == one_pattern());
    lemma_seconds_near(e);
    lemma_seconds_near(d);
    binary64::lemma_seconds_positive(d / 1_000_000_000, d % 1_000_000_000);
    binary64::lemma_power_units(1074);
    if e == d {
        assert(u * o == o * v) by (nonlinear_arith)
            requires
                u == v,
        ;
        binary64::lemma_rounded_exact(p, v);
    }
    if e >= 2 * d {
        assert(2 * (d * o) <= e * o) by (nonlinear_arith)
            requires
                2 * d <= e,
        ;
        assert(2 * u >= 3 * v);
        let step = pow2(1022);
        vstd::arithmetic::div_mod::lemma_fundamental_div_mod_converse(
            p as int,
            HIDDEN as int,
            1023,
            0,
        );
        binary64::lemma_units_step(p);
        lemma2_to64();
        lemma_pow2_adds(1, 1022);
        lemma_pow2_strictly_increases(1023, 1074);
        assert((o + step) * v <= u * o) by (nonlinear_arith)
            requires
                2 * step <= o,
                2 * u >= 3 * v,
        ;
        binary64::lemma_rounded_exact(p + 1, v);
        binary64::lemma_rounded_monotone(binary64::units(p + 1) * v, u * o, v);
    }
}

/// Whether two values differ by no more than one part in 2^49.
pub open spec fn close(a: nat, b: nat) -> bool {
    &&& 0x1_FFFF_FFFF_FFFF * a <= 0x2_0000_0000_0000 * b
    &&& 0x1_FFFF_FFFF_FFFF * b <= 0x2_0000_0000_0000 * a
}

/// A quotient of near values, times the divisor, is close to what is divided.
proof fn lemma_close(e: nat, d: nat, u: nat, v: nat, m: nat, o: nat)
    requires
        o > 0,
        near_twice(e * o, u * 1_000_000_000),
        near_twice(d * o, v * 1_000_000_000),
        near(u * o, m * v),
    ensures
        close(m * d, e * o),
{
    let x = m * d * o;
    let y = m * v;
    let z = u * o;
    let w = e * o * o;
    assert(0x1F_FFFF_FFFF_FFFF * (0x1F_FFFF_FFFF_FFFF * (y * 1_000_000_000)) <= 0x20_0000_0000_0000
        * (0x20_0000_0000_0000 * x)) by (nonlinear_arith)
        requires
            y == m * v,
            x == m * d * o,
            0x1F_FFFF_FFFF_FFFF * (0x1F_FFFF_FFFF_FFFF * (v * 1_000_000_000))
                <= 0x20_0000_0000_0000 * (0x20_0000_0000_0000 * (d * o)),
    ;
    assert(0x20_0000_0000_0000 * (0x20_0000_0000_0000 * x) <= 0x20_0000_0000_0001 * (
    0x20_0000_0000_0001 * (y * 1_000_000_000))) by (nonlinear_arith)
        requires
            y == m * v,
            x == m * d * o,
            0x20_0000_0000_0000 * (0x20_0000_0000_0000 * (d * o)) <= 0x20_0000_0000_0001 * (
            0x20_0000_0000_0001 * (v * 1_000_000_000)),
    ;
    assert(0x1F_FFFF_FFFF_FFFF * (0x1F_FFFF_FFFF_FFFF * (z * 1_000_000_000)) <= 0x20_0000_0000_0000
        * (0x20_0000_0000_0000 * w)) by (nonlinear_arith)
        requires
            z == u * o,
            w == e * o * o,
            0x1F_FFFF_FFFF_FFFF * (0x1F_FFFF_FFFF_FFFF * (u * 1_000_000_000))
                <= 0x20_0000_0000_0000 * (0x20_0000_0000_0000 * (e * o)),
    ;
    assert(0x20_0000_0000_0000 * (0x20_0000_0000_0000 * w) <= 0x20_0000_0000_0001 * (
    0x20_0000_0000_0001 * (z * 1_000_000_000))) by (nonlinear_arith)
        requires
            z == u * o,
            w == e * o * o,
            0x20_0000_0000_0000 * (0x20_0000_0000_0000 * (e * o)) <= 0x20_0000_0000_0001 * (
            0x20_0000_0000_0001 * (u * 1_000_000_000)),
    ;
    assert(0x1_FFFF_FFFF_FFFF * x <= 0x2_0000_0000_0000 * w);
    assert(0x1_FFFF_FFFF_FFFF * w <= 0x2_0000_0000_0000 * x);
    let a = m * d;
    let b = e * o;
    assert(0x1_FFFF_FFFF_FFFF * a <= 0x2_0000_0000_0000 * b) by (nonlinear_arith)
        requires
            0x1_FFFF_FFFF_FFFF * (a * o) <= 0x2_0000_0000_0000 * (b * o),
            o > 0,
    ;
    assert(0x1_FFFF_FFFF_FFFF * b <= 0x2_0000_0000_0000 * a) by (nonlinear_arith)
        requires
            0x1_FFFF_FFFF_FFFF * (b * o) <= 0x2_0000_0000_0000 * (a * o),
            o > 0,
    ;
}

/// A length of time divided by another one, both in seconds, is close to the exact quotient.
pub proof fn lemma_quotient_close(e: nat, d: nat)
    requires
        0 < e < binary64::time_limit(),
        0 < d < binary64::time_limit(),
    ensures
        ({
            let q = binary64::rounded(
                binary64::units(dt::seconds_of(e)) * binary64::one(),
                binary64::units(dt::seconds_of(d)),
            );
            &&& close(binary64::units(q) * d, e * binary64::one())
            &&& binary64::power_pattern(934) <= q <= binary64::power_pattern(1214)
        }),
{
    let o = binary64::one();
    let u = binary64::units(dt::seconds_of(e));
    let v = binary64::units(dt::seconds_of(d));
    let q = binary64::rounded(u * o, v);
    lemma_pow2_pos(1074);
    lemma_seconds_near(e);
    lemma_seconds_near(d);
    binary64::lemma_seconds_positive(d / 1_000_000_000, d % 1_000_000_000);
    binary64::lemma_rounded(u * o, v);
    binary64::lemma_quotient_between(dt::seconds_of(e), dt::seconds_of(d), q);
    lemma_rounding_error(u * o, v, q);
    lemma_close(e, d, u, v, binary64::units(q), o);
}

/// Whether a delay, in nanoseconds, is one second divided by a rate in units: to the nearest
/// nanosecond, and to one part in 2^53.
pub open spec fn is_period(delay: nat, rate: nat) -> bool {
    &&& 0x1F_FFFF_FFFF_FFFF * ((2 * delay - 1) * rate) <= 0x20_0000_0000_0000 * (2_000_000_000
        * binary64::one())
    &&& 0x20_0000_0000_0000 * (2_000_000_000 * binary64::one()) <= 0x20_0000_0000_0001 * ((2 * delay
        + 1) * rate)
}

/// The nanoseconds between events are one second divided by the rate.
pub proof fn lemma_period(b: nat)
    requires
        0 < b < INFINITE,
        binary64::period(b) is Some,
    ensures
        is_period(binary64::period(b).unwrap(), binary64::units(b)),
{
    let o = binary64::one();
    let d = binary64::units(b);
    let q = binary64::rounded(o * o, d);
    let x = binary64::units(q);
    let p = binary64::period(b).unwrap();
    lemma_pow2_pos(1074);
    binary64::lemma_zero_units();
    binary64::lemma_units_increase(0, b);
    binary64::lemma_rounded(o * o, d);
    binary64::lemma_half_even(x * 1_000_000_000, o);
    if b >= binary64::power_pattern(1134) {
        binary64::lemma_power_units(1134);
        binary64::lemma_power_units(1014);
        binary64::lemma_units_ordered(binary64::power_pattern(1134), b);
        lemma_pow2_adds(1014, 1134);
        lemma_pow2_adds(1074, 1074);
        let v = pow2(1014);
        let w = pow2(1134);
        assert(o * o <= v * d) by (nonlinear_arith)
            requires
                o * o == v * w,
                w <= d,
        ;
        binary64::lemma_nearest_between(o * o, d, q, 0, binary64::power_pattern(1014));
        binary64::lemma_vanishing(q);
        lemma2_to64();
        lemma2_to64_rest();
        lemma_pow2_adds(60, 1074);
        assert(p == 0);
        assert((2 * p - 1) * d == -(d as int)) by (nonlinear_arith)
            requires
                p == 0,
        ;
        assert((2 * p + 1) * d == d) by (nonlinear_arith)
            requires
                p == 0,
        ;
    } else {
        lemma_period_normal(b);
        lemma_period_bounds(p, d, x, o);
    }
}

/// One over a rate that is not large is a normal number where it has a period.
proof fn lemma_period_normal(b: nat)
    requires
        0 < b < binary64::power_pattern(1134),
        binary64::period(b) is Some,
    ensures
        ({
            let o = binary64::one();
            near(o * o, binary64::units(binary64::rounded(o * o, binary64::units(b))) * binary64::units(b))
        }),
{
    let o = binary64::one();
    let d = binary64::units(b);
    let q = binary64::rounded(o * o, d);
    lemma_pow2_pos(1074);
    binary64::lemma_zero_units();
    binary64::lemma_units_increase(0, b);
    binary64::lemma_rounded(o * o, d);
    binary64::lemma_power_units(1134);
    binary64::lemma_power_units(1014);
    binary64::lemma_units_ordered(b, binary64::power_pattern(1134));
    lemma_pow2_adds(1014, 1134);
    lemma_pow2_adds(1074, 1074);
    let v = pow2(1014);
    let w = pow2(1134);
    assert(v * d <= o * o) by (nonlinear_arith)
        requires
            o * o == v * w,
            d <= w,
    ;
    binary64::lemma_rounded_exact(binary64::power_pattern(1014), d);
    binary64::lemma_rounded_monotone(v * d, o * o, d);
    assert(q >= binary64::power_pattern(1014));
    if q >= INFINITE {
        binary64::lemma_power_units(1140);
        binary64::lemma_units_ordered(binary64::power_pattern(1140), q);
        lemma2_to64();
        lemma2_to64_rest();
        lemma_pow2_adds(66, 1074);
        lemma_pow2_adds(64, 2);
        let n = binary64::units(q) * 1_000_000_000;
        assert(n >= binary64::time_limit() * o) by (nonlinear_arith)
            requires
                n == binary64::units(q) * 1_000_000_000,
                binary64::units(q) >= 0x4_0000_0000_0000_0000 * o,
                binary64::time_limit() == 0x1_0000_0000_0000_0000 * 1_000_000_000,
        ;
        binary64::lemma_div_at_least(n, o, binary64::time_limit());
        assert(false);
    }
    lemma_rounding_error(o * o, d, q);
}

/// The nearest whole number of nanoseconds to one over a rate.
proof fn lemma_period_bounds(p: nat, d: nat, x: nat, o: nat)
    requires
        o > 0,
        near(o * o, x * d),
        binary64::is_nearest_count(x * 1_000_000_000, o, p),
    ensures
        0x1F_FFFF_FFFF_FFFF * ((2 * p - 1) * d) <= 0x20_0000_0000_0000 * (2_000_000_000 * o),
        0x20_0000_0000_0000 * (2_000_000_000 * o) <= 0x20_0000_0000_0001 * ((2 * p + 1) * d),
{
    let y = x * d;
    let low: int = (2 * p - 1) * d;
    let high: nat = (2 * p + 1) * d;
    let s = o * o;
    assert(low * o <= 2_000_000_000 * y) by (nonlinear_arith)
        requires
            low == (2 * p - 1) * d,
            y == x * d,
            2 * (p * o) <= 2 * (x * 1_000_000_000) + o,
            d >= 0,
    ;
    assert(2_000_000_000 * y <= high * o) by (nonlinear_arith)
        requires
            high == (2 * p + 1) * d,
            y == x * d,
            2 * (x * 1_000_000_000) <= 2 * (p * o) + o,
            d >= 0,
    ;
    assert(0x1F_FFFF_FFFF_FFFF * (low * o) <= 0x20_0000_0000_0000 * (2_000_000_000 * s));
    assert(0x20_0000_0000_0000 * (2_000_000_000 * s) <= 0x20_0000_0000_0001 * (high * o));
    assert(0x1F_FFFF_FFFF_FFFF * low <= 0x20_0000_0000_0000 * (2_000_000_000 * o)) by (
    nonlinear_arith)
        requires
            0x1F_FFFF_FFFF_FFFF * (low * o) <= 0x20_0000_0000_0000 * (2_000_000_000 * s),
            s == o * o,
            o > 0,
    ;
    assert(0x20_0000_0000_0000 * (2_000_000_000 * o) <= 0x20_0000_0000_0001 * high) by (
    nonlinear_arith)
        requires
            0x20_0000_0000_0000 * (2_000_000_000 * s) <= 0x20_0000_0000_0001 * (high * o),
            s == o * o,
            o > 0,
    ;
}

/// A rate that is neither negative nor below 2^-62 has a period, and one that is zero, negative or
/// no number has none.
pub proof fn lemma_which_rates(b: nat)
    ensures
        binary64::power_pattern(1012) <= b <= INFINITE ==> binary64::period(b) is Some,
        b == 0 || INFINITE < b < binary64::SIGN + INFINITE || b > binary64::SIGN + INFINITE
            ==> binary64::period(b) is None,
{
    if binary64::power_pattern(1012) <= b < INFINITE {
        let o = binary64::one();
        let d = binary64::units(b);
        let q = binary64::rounded(o * o, d);
        let x = binary64::units(q);
        lemma_pow2_pos(1074);
        lemma_pow2_pos(1012);
        binary64::lemma_power_units(1012);
        binary64::lemma_power_units(1136);
        binary64::lemma_units_ordered(binary64::power_pattern(1012), b);
        lemma_pow2_adds(1012, 1136);
        lemma_pow2_adds(1074, 1074);
        let v = pow2(1136);
        let w = pow2(1012);
        assert(o * o <= v * d) by (nonlinear_arith)
            requires
                o * o == v * w,
                w <= d,
        ;
        binary64::lemma_rounded(o * o, d);
        binary64::lemma_rounded_exact(binary64::power_pattern(1136), d);
        binary64::lemma_rounded_monotone(o * o, v * d, d);
        binary64::lemma_units_ordered(q, binary64::power_pattern(1136));
        binary64::lemma_half_even(x * 1_000_000_000, o);
        lemma2_to64();
        lemma2_to64_rest();
        lemma_pow2_adds(62, 1074);
        let p = binary64::nanoseconds(q);
        assert(p < binary64::time_limit()) by (nonlinear_arith)
            requires
                2 * (p * o) <= 2 * (x * 1_000_000_000) + o,
                x <= 0x4000_0000_0000_0000 * o,
                o > 0,
                binary64::time_limit() == 0x1_0000_0000_0000_0000 * 1_000_000_000,
        ;
    }
}

} // verus!
