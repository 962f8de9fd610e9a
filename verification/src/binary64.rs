//! Arithmetic on non-negative binary64 numbers, carried out on their bit patterns.
//!
//! Every finite binary64 number is a whole multiple of the smallest positive one,
//! 2^-1074. A non-negative number is therefore known by how many of these units it
//! holds, and the bit patterns of the non-negative numbers, read as integers, are in
//! the order of the numbers. Rounding is stated on units: the result of an operation
//! is the number nearest to the exact value, and the even pattern of two that are
//! equally near.
use vstd::arithmetic::mul::*;
use vstd::arithmetic::power2::*;
use vstd::prelude::*;

verus! {

/// 2^52, the weight of the leading bit of a normal significand.
pub const HIDDEN: u64 = 0x10_0000_0000_0000;

/// The bit pattern of positive infinity.
pub const INFINITE: u64 = 0x7FF0_0000_0000_0000;

/// The bit pattern of negative zero, which is also the weight of the sign bit.
pub const SIGN: u64 = 0x8000_0000_0000_0000;

/// The power of two by which the units of a pattern are scaled.
pub open spec fn scale(b: nat) -> nat {
    if b < HIDDEN {
        0
    } else {
        (b / HIDDEN as nat - 1) as nat
    }
}

/// The significand of a pattern: the units it holds, before scaling.
pub open spec fn significand(b: nat) -> nat {
    if b < HIDDEN {
        b
    } else {
        HIDDEN as nat + b % HIDDEN as nat
    }
}

/// How many times 2^-1074 the number with pattern `b` is. Infinity counts as 2^1024,
/// the power of two that comes after the largest finite number.
pub open spec fn units(b: nat) -> nat {
    significand(b) * pow2(scale(b))
}

/// The units of the number one.
pub open spec fn one() -> nat {
    pow2(1074)
}

/// Whether `r` is the pattern nearest to `n / d` units, the even one of two that are
/// equally near.
pub open spec fn nearest(n: nat, d: nat, r: nat) -> bool {
    &&& r <= INFINITE
    &&& r > 0 ==> {
        let low = (units((r - 1) as nat) + units(r)) * d;
        2 * n > low || (2 * n == low && r % 2 == 0)
    }
    &&& r < INFINITE ==> {
        let high = (units(r) + units(r + 1)) * d;
        2 * n < high || (2 * n == high && r % 2 == 0)
    }
}

/// The pattern of `n / d` units, rounded.
pub open spec fn rounded(n: nat, d: nat) -> nat {
    choose|r: nat| nearest(n, d, r)
}

/// The next pattern holds one scaled unit more.
pub proof fn lemma_units_step(b: nat)
    ensures
        units(b + 1) == units(b) + pow2(scale(b)),
{
    lemma2_to64();
    let h = HIDDEN as nat;
    if b + 1 < h {
        lemma_mul_basics(b as int);
        lemma_mul_basics((b + 1) as int);
        assert(units(b) == b * 1 && units(b + 1) == (b + 1) * 1);
    } else if b + 1 == h {
        lemma_mul_basics(b as int);
        lemma_mul_basics(h as int);
        assert(units(b) == b * 1 && units(b + 1) == h * 1);
    } else {
        let e = b / h;
        let f = b % h;
        assert(b == e * h + f);
        let p = pow2((e - 1) as nat);
        if f + 1 < h {
            assert((b + 1) / h == e && (b + 1) % h == f + 1) by {
                vstd::arithmetic::div_mod::lemma_fundamental_div_mod_converse(
                    (b + 1) as int,
                    h as int,
                    e as int,
                    (f + 1) as int,
                );
            }
            assert(units(b) == (h + f) * p);
            assert(units(b + 1) == (h + f + 1) * p);
            assert((h + f + 1) * p == (h + f) * p + p) by (nonlinear_arith);
        } else {
            assert((b + 1) / h == e + 1 && (b + 1) % h == 0) by {
                vstd::arithmetic::div_mod::lemma_fundamental_div_mod_converse(
                    (b + 1) as int,
                    h as int,
                    (e + 1) as int,
                    0,
                );
            }
            lemma_pow2_unfold(e);
            assert(units(b + 1) == h * pow2(e));
            assert(units(b) == (2 * h - 1) * p);
            assert(h * (2 * p) == (2 * h - 1) * p + p) by (nonlinear_arith);
        }
    }
}

/// A larger pattern is a larger number.
pub proof fn lemma_units_increase(a: nat, b: nat)
    requires
        a < b,
    ensures
        units(a) < units(b),
    decreases b,
{
    lemma_units_step((b - 1) as nat);
    lemma_pow2_pos(scale((b - 1) as nat));
    if a < b - 1 {
        lemma_units_increase(a, (b - 1) as nat);
    }
}

/// Rounding keeps the order of the exact values.
pub proof fn lemma_nearest_monotone(n1: nat, d1: nat, r1: nat, n2: nat, d2: nat, r2: nat)
    requires
        d1 > 0,
        d2 > 0,
        nearest(n1, d1, r1),
        nearest(n2, d2, r2),
        n1 * d2 <= n2 * d1,
    ensures
        r1 <= r2,
{
    if r1 > r2 {
        let s1 = units((r1 - 1) as nat) + units(r1);
        let s2 = units(r2) + units(r2 + 1);
        if r2 + 1 < r1 {
            lemma_units_increase(r2, (r1 - 1) as nat);
            lemma_units_increase(r2 + 1, r1);
        }
        assert(2 * n1 >= s1 * d1);
        assert(2 * n2 <= s2 * d2);
        assert(2 * n1 * d2 >= s1 * d1 * d2) by (nonlinear_arith)
            requires
                2 * n1 >= s1 * d1,
                d2 > 0,
        ;
        assert(2 * n2 * d1 <= s2 * d2 * d1) by (nonlinear_arith)
            requires
                2 * n2 <= s2 * d2,
                d1 > 0,
        ;
        assert(2 * n1 * d2 <= 2 * n2 * d1) by (nonlinear_arith)
            requires
                n1 * d2 <= n2 * d1,
        ;
        assert(s1 * d1 * d2 == s1 * (d1 * d2)) by (nonlinear_arith);
        assert(s2 * d2 * d1 == s2 * (d1 * d2)) by (nonlinear_arith);
        let d = d1 * d2;
        assert(d > 0) by (nonlinear_arith)
            requires
                d == d1 * d2,
                d1 > 0,
                d2 > 0,
        ;
        if s1 > s2 {
            assert(s1 * d > s2 * d) by (nonlinear_arith)
                requires
                    s1 > s2,
                    d > 0,
            ;
        }
        assert(s1 == s2);
        assert(r1 == r2 + 1);
        assert(2 * n1 == s1 * d1) by {
            if 2 * n1 > s1 * d1 {
                assert(2 * n1 * d2 > s1 * d1 * d2) by (nonlinear_arith)
                    requires
                        2 * n1 > s1 * d1,
                        d2 > 0,
                ;
            }
        }
        assert(2 * n2 == s2 * d2) by {
            if 2 * n2 < s2 * d2 {
                assert(2 * n2 * d1 < s2 * d2 * d1) by (nonlinear_arith)
                    requires
                        2 * n2 < s2 * d2,
                        d1 > 0,
                ;
            }
        }
    }
}

/// At most one pattern is the nearest.
pub proof fn lemma_nearest_unique(n: nat, d: nat, r: nat)
    requires
        d > 0,
        nearest(n, d, r),
    ensures
        rounded(n, d) == r,
{
    let other = rounded(n, d);
    assert(nearest(n, d, other));
    lemma_nearest_monotone(n, d, r, n, d, other);
    lemma_nearest_monotone(n, d, other, n, d, r);
}

/// The largest pattern up to `top` that does not exceed `n / d` units.
proof fn lemma_floor_exists(n: nat, d: nat, top: nat) -> (b: nat)
    requires
        top <= INFINITE,
    ensures
        b <= top,
        units(b) * d <= n,
        b < top ==> n < units(b + 1) * d,
    decreases top,
{
    if units(top) * d <= n {
        top
    } else {
        if top == 0 {
            lemma2_to64();
            assert(units(0) == 0);
            assert(units(0) * d == 0) by (nonlinear_arith)
                requires
                    units(0) == 0,
            ;
            top
        } else {
            lemma_floor_exists(n, d, (top - 1) as nat)
        }
    }
}

/// Every exact value has a nearest pattern.
pub proof fn lemma_rounded(n: nat, d: nat)
    requires
        d > 0,
    ensures
        nearest(n, d, rounded(n, d)),
{
    let b = lemma_floor_exists(n, d, INFINITE as nat);
    if b > 0 {
        lemma_units_increase((b - 1) as nat, b);
        let u0 = units((b - 1) as nat);
        let u1 = units(b);
        assert((u0 + u1) * d < 2 * n) by (nonlinear_arith)
            requires
                u0 < u1,
                u1 * d <= n,
                d > 0,
        ;
    }
    if b < INFINITE {
        let middle = (units(b) + units(b + 1)) * d;
        lemma_units_increase(b, b + 1);
        if b + 1 < INFINITE {
            lemma_units_increase(b + 1, b + 2);
            let u1 = units(b + 1);
            let u2 = units(b + 2);
            assert(2 * n < (u1 + u2) * d) by (nonlinear_arith)
                requires
                    u1 < u2,
                    n < u1 * d,
                    d > 0,
            ;
        }
        if 2 * n < middle || (2 * n == middle && b % 2 == 0) {
            assert(nearest(n, d, b));
        } else {
            assert(nearest(n, d, b + 1));
        }
    } else {
        assert(nearest(n, d, b));
    }
}

/// A number that is exactly representable is its own rounding.
pub proof fn lemma_rounded_exact(b: nat, d: nat)
    requires
        d > 0,
        b <= INFINITE,
    ensures
        rounded(units(b) * d, d) == b,
{
    let n = units(b) * d;
    let u = units(b);
    if b > 0 {
        lemma_units_increase((b - 1) as nat, b);
        let u0 = units((b - 1) as nat);
        assert((u0 + u) * d < 2 * (u * d)) by (nonlinear_arith)
            requires
                u0 < u,
                d > 0,
        ;
    }
    if b < INFINITE {
        lemma_units_increase(b, b + 1);
        let u2 = units(b + 1);
        assert((u + u2) * d > 2 * (u * d)) by (nonlinear_arith)
            requires
                u2 > u,
                d > 0,
        ;
    }
    assert(nearest(n, d, b));
    lemma_nearest_unique(n, d, b);
}

/// Whether `n / d` units lie at `q` steps of `pow2(k)` units, or, with `sticky`, between
/// that many and one more.
spec fn brackets(q: nat, sticky: bool, k: nat, n: nat, d: nat) -> bool {
    &&& d > 0
    &&& q * (pow2(k) * d) <= n
    &&& n < (q + 1) * (pow2(k) * d)
    &&& sticky == (n != q * (pow2(k) * d))
}

/// The units of the pattern that `compose` truncates to, and of the one after it.
proof fn lemma_composed_units(m: nat, e: nat, b: nat)
    requires
        HIDDEN <= m < 2 * HIDDEN,
        b == e * HIDDEN + m,
    ensures
        units(b) == m * pow2(e),
        units(b + 1) == (m + 1) * pow2(e),
        b % 2 == m % 2,
{
    let h = HIDDEN as nat;
    vstd::arithmetic::div_mod::lemma_fundamental_div_mod_converse(
        b as int,
        h as int,
        (e + 1) as int,
        (m - h) as int,
    );
    lemma_units_step(b);
    assert((m + 1) * pow2(e) == m * pow2(e) + pow2(e)) by (nonlinear_arith);
}

/// Rounding `q` steps to 53 bits, by the bits that are cut off.
#[verifier::spinoff_prover]
#[verifier::rlimit(50)]
proof fn lemma_compose(
    q: nat,
    sticky: bool,
    k: nat,
    s: nat,
    m: nat,
    rem: nat,
    up: bool,
    n: nat,
    d: nat,
)
    requires
        brackets(q, sticky, k, n, d),
        s > 0,
        HIDDEN <= m < 2 * HIDDEN,
        q == m * pow2(s) + rem,
        rem < pow2(s),
        up == (2 * rem > pow2(s) || (2 * rem == pow2(s) && (sticky || m % 2 == 1))),
        (s + k) * HIDDEN + m + 1 < INFINITE,
    ensures
        nearest(n, d, ((s + k) * HIDDEN + m + if up { 1nat } else { 0nat }) as nat),
{
    let b = ((s + k) * HIDDEN + m) as nat;
    let p = pow2(s);
    let a = pow2(k) * d;
    let w = p * a;
    lemma_composed_units(m, s + k, b);
    lemma_pow2_adds(s, k);
    lemma_pow2_pos(s);
    lemma_pow2_pos(k);
    lemma_pow2_unfold(s);
    assert(a > 0) by (nonlinear_arith)
        requires
            a == pow2(k) * d,
            pow2(k) > 0,
            d > 0,
    ;
    let pk = pow2(k);
    assert((m * (p * pk)) * d == m * w) by (nonlinear_arith)
        requires
            w == p * (pk * d),
    ;
    assert(((m + 1) * (p * pk)) * d == m * w + w) by (nonlinear_arith)
        requires
            w == p * (pk * d),
    ;
    let ub = units(b);
    let uc = units(b + 1);
    assert((ub + uc) * d == ub * d + uc * d) by (nonlinear_arith);
    assert(q * a == m * w + rem * a) by (nonlinear_arith)
        requires
            q == m * p + rem,
            w == p * a,
    ;
    assert((q + 1) * a == q * a + a) by (nonlinear_arith);
    assert(ub * d == m * w);
    assert(uc * d == m * w + w);
    lemma_units_increase((b - 1) as nat, b);
    lemma_units_increase(b + 1, b + 2);
    let ua = units((b - 1) as nat);
    let ue = units(b + 2);
    if up {
        assert(2 * (rem * a) >= w) by (nonlinear_arith)
            requires
                2 * rem >= p,
                w == p * a,
                a > 0,
        ;
        if 2 * rem > p {
            assert(2 * (rem * a) > w) by (nonlinear_arith)
                requires
                    2 * rem > p,
                    w == p * a,
                    a > 0,
            ;
        } else {
            assert(2 * (rem * a) == w) by (nonlinear_arith)
                requires
                    2 * rem == p,
                    w == p * a,
            ;
        }
        assert(rem * a + a <= w) by (nonlinear_arith)
            requires
                rem + 1 <= p,
                w == p * a,
        ;
        assert(2 * n < 2 * (uc * d));
        assert((uc + ue) * d > 2 * (uc * d)) by (nonlinear_arith)
            requires
                ue > uc,
                d > 0,
        ;
        assert(nearest(n, d, b + 1));
    } else {
        if 2 * rem == p {
            assert(2 * (rem * a) == w) by (nonlinear_arith)
                requires
                    2 * rem == p,
                    w == p * a,
            ;
        } else {
            assert(2 * (rem * a) + 2 * a <= w) by (nonlinear_arith)
                requires
                    2 * rem + 2 <= p,
                    w == p * a,
            ;
        }
        assert(rem * a >= 0) by (nonlinear_arith)
            requires
                a > 0,
        ;
        assert((ua + ub) * d < 2 * (ub * d)) by (nonlinear_arith)
            requires
                ua < ub,
                d > 0,
        ;
        assert(nearest(n, d, b));
    }
}

/// The pattern nearest to `q`, or to a value between `q` and `q + 1`, times `pow2(k)`
/// units.
fn compose(q: u128, sticky: bool, k: u32) -> (r: u64)
    requires
        q >= 0x40_0000_0000_0000,
        k <= 1950,
    ensures
        HIDDEN <= r < INFINITE,
        forall|n: nat, d: nat| #[trigger]
            brackets(q as nat, sticky, k as nat, n, d) ==> nearest(n, d, r as nat),
{
    let mut p: u128 = 1;
    let mut s: u32 = 0;
    proof {
        lemma2_to64();
        lemma2_to64_rest();
    }
    while q / p >= 0x20_0000_0000_0000
        invariant
            p == pow2(s as nat),
            p > 0,
            p == 1 || p % 2 == 0,
            (p == 1) == (s == 0),
            s <= 75,
            q / p >= HIDDEN,
        decreases q / p,
    {
        proof {
            let t = q / p;
            assert(q >= p * t) by {
                vstd::arithmetic::div_mod::lemma_fundamental_div_mod(q as int, p as int);
                vstd::arithmetic::div_mod::lemma_mod_bound(q as int, p as int);
            }
            assert(p < 0x800_0000_0000_0000_0000) by (nonlinear_arith)
                requires
                    q >= p * t,
                    t >= 0x20_0000_0000_0000,
                    q <= 0xffff_ffff_ffff_ffff_ffff_ffff_ffff_ffff,
            ;
            lemma2_to64();
            lemma2_to64_rest();
            lemma_pow2_adds(64, 11);
            if s >= 75 {
                if s > 75 {
                    lemma_pow2_strictly_increases(75, s as nat);
                }
                assert(false);
            }
            lemma_pow2_unfold((s + 1) as nat);
            vstd::arithmetic::div_mod::lemma_div_denominator(q as int, p as int, 2);
            assert(p * 2 == 2 * p);
        }
        p = p * 2;
        s = s + 1;
    }
    let m: u128 = q / p;
    let rem: u128 = q % p;
    let half: u128 = p / 2;
    let up = rem > half || (rem == half && (sticky || m % 2 == 1));
    let b: u64 = (s as u64 + k as u64) * HIDDEN + m as u64;
    proof {
        assert(q == m * p + rem) by {
            vstd::arithmetic::div_mod::lemma_fundamental_div_mod(q as int, p as int);
            lemma_mul_is_commutative(m as int, p as int);
        }
        assert forall|n: nat, d: nat| #[trigger]
            brackets(q as nat, sticky, k as nat, n, d) implies nearest(
            n,
            d,
            b as nat + if up {
                1nat
            } else {
                0nat
            },
        ) by {
            lemma_compose(
                q as nat,
                sticky,
                k as nat,
                s as nat,
                m as nat,
                rem as nat,
                up,
                n,
                d,
            );
        }
    }
    if up {
        b + 1
    } else {
        b
    }
}

/// Rounding stays between two numbers that the exact value lies between.
pub proof fn lemma_nearest_between(n: nat, d: nat, r: nat, low: nat, high: nat)
    requires
        d > 0,
        nearest(n, d, r),
        low <= high <= INFINITE,
        units(low) * d <= n <= units(high) * d,
    ensures
        low <= r <= high,
{
    lemma_rounded_exact(low, d);
    lemma_rounded_exact(high, d);
    lemma_rounded(units(low) * d, d);
    lemma_rounded(units(high) * d, d);
    lemma_mul_inequality((units(low) * d) as int, n as int, d as int);
    lemma_mul_inequality(n as int, (units(high) * d) as int, d as int);
    lemma_nearest_monotone(units(low) * d, d, low, n, d, r);
    lemma_nearest_monotone(n, d, r, units(high) * d, d, high);
}

/// The pattern of a power of two.
pub open spec fn power_pattern(e: nat) -> nat {
    (e - 51) as nat * HIDDEN as nat
}

/// `power_pattern(e)` holds `pow2(e)` units.
pub proof fn lemma_power_units(e: nat)
    requires
        e >= 52,
    ensures
        units(power_pattern(e)) == pow2(e),
{
    let h = HIDDEN as nat;
    lemma2_to64();
    lemma2_to64_rest();
    vstd::arithmetic::div_mod::lemma_fundamental_div_mod_converse(
        power_pattern(e) as int,
        h as int,
        (e - 51) as int,
        0,
    );
    assert(power_pattern(e) >= h);
    lemma_pow2_adds(52, (e - 52) as nat);
}

/// The power of two `2^n`.
fn two_to(n: u32) -> (r: u128)
    requires
        n <= 127,
    ensures
        r == pow2(n as nat),
        r > 0,
{
    let mut r: u128 = 1;
    let mut i: u32 = 0;
    proof {
        lemma2_to64();
    }
    while i < n
        invariant
            i <= n <= 127,
            r == pow2(i as nat),
            r > 0,
        decreases n - i,
    {
        proof {
            lemma2_to64();
            lemma2_to64_rest();
            lemma_pow2_adds(64, 63);
            lemma_pow2_unfold((i + 1) as nat);
            if i + 1 < 127 {
                lemma_pow2_strictly_increases((i + 1) as nat, 127);
            }
        }
        r = r * 2;
        i = i + 1;
    }
    r
}

/// The significand and the scale of a pattern.
fn split(b: u64) -> (r: (u64, u32))
    requires
        b <= INFINITE,
    ensures
        r.0 == significand(b as nat),
        r.1 == scale(b as nat),
        r.0 < 2 * HIDDEN,
        b >= HIDDEN ==> r.0 >= HIDDEN,
        r.1 <= 2046,
{
    if b < HIDDEN {
        (b, 0)
    } else {
        (HIDDEN + b % HIDDEN, (b / HIDDEN - 1) as u32)
    }
}

/// The scale of a pattern between two powers of two.
proof fn lemma_scale_between(b: nat, low: nat, high: nat)
    requires
        52 <= low <= high,
        power_pattern(low) <= b <= power_pattern(high),
        b <= INFINITE,
    ensures
        low - 52 <= scale(b) <= high - 52,
{
    let h = HIDDEN as int;
    vstd::arithmetic::div_mod::lemma_div_is_ordered(power_pattern(low) as int, b as int, h);
    vstd::arithmetic::div_mod::lemma_div_is_ordered(b as int, power_pattern(high) as int, h);
    assert(power_pattern(low) as int / h == low - 51) by {
        vstd::arithmetic::div_mod::lemma_fundamental_div_mod_converse(
            power_pattern(low) as int,
            h,
            (low - 51) as int,
            0,
        );
    }
    assert(power_pattern(high) as int / h == high - 51) by {
        vstd::arithmetic::div_mod::lemma_fundamental_div_mod_converse(
            power_pattern(high) as int,
            h,
            (high - 51) as int,
            0,
        );
    }
}

/// The quotient of two numbers between 2^-70 and 2^70.
pub fn quotient(a: u64, b: u64) -> (r: u64)
    requires
        power_pattern(1004) <= a <= power_pattern(1144),
        power_pattern(1004) <= b <= power_pattern(1144),
    ensures
        nearest(units(a as nat) * one(), units(b as nat), r as nat),
        r == rounded(units(a as nat) * one(), units(b as nat)),
        power_pattern(934) <= r <= power_pattern(1214),
        r < INFINITE,
{
    proof {
        lemma_scale_between(a as nat, 1004, 1144);
        lemma_scale_between(b as nat, 1004, 1144);
    }
    let (sa, ka) = split(a);
    let (sb, kb) = split(b);
    let wide: u128 = sa as u128 * 0x1_0000_0000_0000_0000;
    let q: u128 = wide / sb as u128;
    let rem: u128 = wide % sb as u128;
    let k: u32 = 1010 + ka - kb;
    proof {
        vstd::arithmetic::div_mod::lemma_fundamental_div_mod(wide as int, sb as int);
        vstd::arithmetic::div_mod::lemma_mod_bound(wide as int, sb as int);
        assert(q >= 0x40_0000_0000_0000) by (nonlinear_arith)
            requires
                wide == sb * q + rem,
                rem < sb,
                wide == sa * 0x1_0000_0000_0000_0000,
                sa >= 0x10_0000_0000_0000,
                sb < 0x20_0000_0000_0000,
        ;
        let n = units(a as nat) * one();
        let d = units(b as nat);
        let c = pow2((ka + 1010) as nat);
        lemma2_to64();
        lemma2_to64_rest();
        lemma_pow2_adds(k as nat, kb as nat);
        lemma_pow2_adds(ka as nat, 1074);
        lemma_pow2_adds((ka + 1010) as nat, 64);
        lemma_pow2_pos((ka + 1010) as nat);
        lemma_pow2_pos(kb as nat);
        let pk = pow2(k as nat);
        let pb = pow2(kb as nat);
        let pa = pow2(ka as nat);
        let u = one();
        assert(d > 0) by (nonlinear_arith)
            requires
                d == sb * pb,
                sb > 0,
                pb > 0,
        ;
        assert(q * (pk * d) == (q * sb) * c) by (nonlinear_arith)
            requires
                d == sb * pb,
                pk * pb == c,
        ;
        assert((q + 1) * (pk * d) == (q * sb) * c + sb * c) by (nonlinear_arith)
            requires
                d == sb * pb,
                pk * pb == c,
        ;
        assert(n == wide * c) by (nonlinear_arith)
            requires
                n == (sa * pa) * u,
                pa * u == c * 0x1_0000_0000_0000_0000,
                wide == sa * 0x1_0000_0000_0000_0000,
        ;
        assert(wide * c == (q * sb) * c + rem * c) by (nonlinear_arith)
            requires
                wide == sb * q + rem,
        ;
        assert(rem * c < sb * c) by (nonlinear_arith)
            requires
                rem < sb,
                c > 0,
        ;
        if rem != 0 {
            assert(rem * c > 0) by (nonlinear_arith)
                requires
                    rem > 0,
                    c > 0,
            ;
        } else {
            assert(rem * c == 0) by (nonlinear_arith)
                requires
                    rem == 0,
            ;
        }
        assert(brackets(q as nat, rem != 0, k as nat, n, d));
    }
    let r = compose(q, rem != 0, k);
    proof {
        lemma_quotient_between(a as nat, b as nat, r as nat);
        lemma_units_increase(0, b as nat);
        lemma_zero_units();
        lemma_nearest_unique(units(a as nat) * one(), units(b as nat), r as nat);
    }
    r
}

/// The quotient of two numbers between 2^-70 and 2^70 is between 2^-140 and 2^140.
pub proof fn lemma_quotient_between(a: nat, b: nat, r: nat)
    requires
        power_pattern(1004) <= a <= power_pattern(1144),
        power_pattern(1004) <= b <= power_pattern(1144),
        nearest(units(a) * one(), units(b), r),
    ensures
        power_pattern(934) <= r <= power_pattern(1214),
{
    let ua = units(a);
    let ub = units(b);
    let u = one();
    let low = pow2(1004);
    let high = pow2(1144);
    lemma_power_units(1004);
    lemma_power_units(1144);
    lemma_power_units(934);
    lemma_power_units(1214);
    lemma_units_ordered(power_pattern(1004), a);
    lemma_units_ordered(a, power_pattern(1144));
    lemma_units_ordered(power_pattern(1004), b);
    lemma_units_ordered(b, power_pattern(1144));
    lemma_pow2_adds(934, 1144);
    lemma_pow2_adds(1004, 1074);
    lemma_pow2_adds(1214, 1004);
    lemma_pow2_adds(1144, 1074);
    lemma_pow2_pos(1004);
    let v = pow2(934);
    let w = pow2(1214);
    assert(v * ub <= ua * u) by (nonlinear_arith)
        requires
            ub <= high,
            ua >= low,
            v * high == low * u,
    ;
    assert(ua * u <= w * ub) by (nonlinear_arith)
        requires
            ua <= high,
            ub >= low,
            w * low == high * u,
    ;
    lemma_nearest_between(ua * u, ub, r, power_pattern(934), power_pattern(1214));
}

/// A hundred times a number between 2^-1000 and 2^800.
pub fn times_hundred(a: u64) -> (r: u64)
    requires
        power_pattern(74) <= a <= power_pattern(1874),
    ensures
        r == rounded(units(a as nat) * 100, 1),
        r < INFINITE,
{
    proof {
        lemma_scale_between(a as nat, 74, 1874);
    }
    let (sa, ka) = split(a);
    let q: u128 = sa as u128 * 102400;
    let k: u32 = ka - 10;
    proof {
        let n = units(a as nat) * 100;
        lemma2_to64();
        lemma_pow2_adds(10, k as nat);
        lemma_pow2_pos(k as nat);
        let pk = pow2(k as nat);
        let pa = pow2(ka as nat);
        assert(q * (pk * 1) == n) by (nonlinear_arith)
            requires
                n == (sa * pa) * 100,
                pa == 1024 * pk,
                q == sa * 102400,
        ;
        assert((q + 1) * (pk * 1) > q * (pk * 1)) by (nonlinear_arith)
            requires
                pk > 0,
        ;
        assert(brackets(q as nat, false, k as nat, n, 1));
    }
    let r = compose(q, false, k);
    proof {
        lemma_nearest_unique(units(a as nat) * 100, 1, r as nat);
    }
    r
}

/// The whole part of a number, at most `u64::MAX`.
pub open spec fn whole_part(b: nat) -> nat {
    if units(b) / one() > u64::MAX {
        u64::MAX as nat
    } else {
        units(b) / one()
    }
}

/// The whole part of a number, as a saturating conversion to an integer takes it.
pub fn truncate(b: u64) -> (r: u64)
    requires
        b <= INFINITE,
    ensures
        r == whole_part(b as nat),
{
    let (sb, kb) = split(b);
    proof {
        lemma2_to64();
        lemma2_to64_rest();
        lemma_pow2_pos(1074);
    }
    let ghost u = one();
    if b >= 0x43F0_0000_0000_0000 {
        proof {
            lemma_power_units(1138);
            if b > 0x43F0_0000_0000_0000 {
                lemma_units_increase(power_pattern(1138), b as nat);
            }
            lemma_pow2_adds(64, 1074);
            lemma_div_at_least(units(b as nat), u, 0x1_0000_0000_0000_0000);
        }
        u64::MAX
    } else if kb >= 1074 {
        proof {
            assert(b / HIDDEN <= 0x43E);
        }
        let p = two_to(kb - 1074);
        proof {
            lemma_pow2_adds((kb - 1074) as nat, 1074);
            if kb < 1085 {
                lemma_pow2_strictly_increases((kb - 1074) as nat, 11);
            }
            assert(sb * p <= 0xFFFF_FFFF_FFFF_FFFF) by (nonlinear_arith)
                requires
                    sb <= 0x1F_FFFF_FFFF_FFFF,
                    p <= 0x800,
            ;
            let pb = pow2(kb as nat);
            assert(units(b as nat) == (sb * p) * u) by (nonlinear_arith)
                requires
                    units(b as nat) == sb * pb,
                    pb == p * u,
            ;
            vstd::arithmetic::div_mod::lemma_fundamental_div_mod_converse(
                units(b as nat) as int,
                u as int,
                (sb * p) as int,
                0,
            );
        }
        (sb as u128 * p) as u64
    } else {
        let t: u32 = 1074 - kb;
        proof {
            lemma_pow2_adds(kb as nat, t as nat);
            lemma_pow2_pos(kb as nat);
            lemma_scaled_div(sb as nat, pow2(t as nat), pow2(kb as nat));
        }
        if t >= 53 {
            proof {
                if t > 53 {
                    lemma_pow2_strictly_increases(53, t as nat);
                }
                assert(sb as nat / pow2(t as nat) == 0) by {
                    vstd::arithmetic::div_mod::lemma_basic_div(sb as int, pow2(t as nat) as int);
                }
            }
            0
        } else {
            let p = two_to(t);
            proof {
                vstd::arithmetic::div_mod::lemma_div_is_ordered_by_denominator(sb as int, 1, p as int);
            }
            (sb as u128 / p) as u64
        }
    }
}

/// `n` divided by `d` is at least `m` where `n` is at least `m` times `d`.
pub proof fn lemma_div_at_least(n: nat, d: nat, m: nat)
    requires
        d > 0,
        n >= m * d,
    ensures
        n / d >= m,
{
    vstd::arithmetic::div_mod::lemma_div_is_ordered((m * d) as int, n as int, d as int);
    vstd::arithmetic::div_mod::lemma_fundamental_div_mod_converse(
        (m * d) as int,
        d as int,
        m as int,
        0,
    );
}

/// A common factor leaves a quotient as it is.
proof fn lemma_scaled_div(n: nat, d: nat, c: nat)
    requires
        d > 0,
        c > 0,
    ensures
        (n * c) / (c * d) == n / d,
        (n * c) % (c * d) == (n % d) * c,
{
    let f = n / d;
    let r = n % d;
    vstd::arithmetic::div_mod::lemma_fundamental_div_mod(n as int, d as int);
    vstd::arithmetic::div_mod::lemma_mod_bound(n as int, d as int);
    assert(n * c == f * (c * d) + r * c) by (nonlinear_arith)
        requires
            n == d * f + r,
    ;
    assert(0 <= r * c < c * d) by (nonlinear_arith)
        requires
            0 <= r < d,
            c > 0,
    ;
    vstd::arithmetic::div_mod::lemma_fundamental_div_mod_converse(
        (n * c) as int,
        (c * d) as int,
        f as int,
        (r * c) as int,
    );
}

/// `n / d` as a whole number, rounded to the nearest, and to the even one of two that
/// are equally near.
pub open spec fn half_even(n: nat, d: nat) -> nat {
    let f = n / d;
    let r = n % d;
    if 2 * r < d || (2 * r == d && f % 2 == 0) {
        f
    } else {
        f + 1
    }
}

/// Whether a whole number is the one nearest to `n / d`, and the even one of two that are equally
/// near.
pub open spec fn is_nearest_count(n: nat, d: nat, count: nat) -> bool {
    &&& 2 * n <= 2 * (count * d) + d
    &&& 2 * (count * d) <= 2 * n + d
    &&& 2 * n == 2 * (count * d) + d || 2 * (count * d) == 2 * n + d ==> count % 2 == 0
}

/// Rounding to a whole number gives the nearest.
pub proof fn lemma_half_even(n: nat, d: nat)
    requires
        d > 0,
    ensures
        is_nearest_count(n, d, half_even(n, d)),
{
    let f = n / d;
    let r = n % d;
    vstd::arithmetic::div_mod::lemma_fundamental_div_mod(n as int, d as int);
    vstd::arithmetic::div_mod::lemma_mod_bound(n as int, d as int);
    assert(d * f == f * d) by (nonlinear_arith);
    assert((f + 1) * d == f * d + d) by (nonlinear_arith);
}

/// The number with pattern `b`, taken as seconds, in whole nanoseconds.
pub open spec fn nanoseconds(b: nat) -> nat {
    half_even(units(b) * 1_000_000_000, one())
}

/// A whole number of seconds is that many times a thousand million nanoseconds.
pub proof fn lemma_whole_nanoseconds(b: nat, k: nat)
    requires
        units(b) == k * one(),
    ensures
        nanoseconds(b) == k * 1_000_000_000,
{
    let u = one();
    lemma_pow2_pos(1074);
    assert(k * u * 1_000_000_000 == (k * 1_000_000_000) * u) by (nonlinear_arith);
    vstd::arithmetic::div_mod::lemma_fundamental_div_mod_converse(
        (k * u * 1_000_000_000) as int,
        u as int,
        (k * 1_000_000_000) as int,
        0,
    );
}

/// A common factor leaves the rounding to a whole number as it is.
proof fn lemma_half_even_scaled(n: nat, d: nat, c: nat)
    requires
        d > 0,
        c > 0,
    ensures
        half_even(n * c, c * d) == half_even(n, d),
{
    lemma_scaled_div(n, d, c);
    let r = n % d;
    assert(2 * (r * c) < c * d <==> 2 * r < d) by (nonlinear_arith)
        requires
            c > 0,
    ;
    assert(2 * (r * c) == c * d <==> 2 * r == d) by (nonlinear_arith)
        requires
            c > 0,
    ;
}

/// The number with pattern `b`, taken as seconds, in whole seconds and the nanoseconds
/// left over; nothing where the seconds need more than 64 bits.
pub fn to_nanoseconds(b: u64) -> (r: Option<(u64, u32)>)
    requires
        b <= INFINITE,
    ensures
        r matches Some(p) ==> p.1 < 1_000_000_000 && p.0 * 1_000_000_000 + p.1 == nanoseconds(
            b as nat,
        ),
        r is None ==> nanoseconds(b as nat) >= 0x1_0000_0000_0000_0000 * 1_000_000_000,
{
    let (sb, kb) = split(b);
    proof {
        lemma2_to64();
        lemma2_to64_rest();
        lemma_pow2_pos(1074);
    }
    let ghost u = one();
    let ghost n = units(b as nat) * 1_000_000_000;
    if b >= 0x43F0_0000_0000_0000 {
        proof {
            lemma_power_units(1138);
            if b > 0x43F0_0000_0000_0000 {
                lemma_units_increase(power_pattern(1138), b as nat);
            }
            lemma_pow2_adds(64, 1074);
            lemma_div_at_least(n, u, 0x1_0000_0000_0000_0000 * 1_000_000_000);
        }
        None
    } else if kb >= 1074 {
        proof {
            assert(b / HIDDEN <= 0x43E);
        }
        let p = two_to(kb - 1074);
        proof {
            lemma_pow2_adds((kb - 1074) as nat, 1074);
            if kb < 1085 {
                lemma_pow2_strictly_increases((kb - 1074) as nat, 11);
            }
            assert(sb * p <= 0xFFFF_FFFF_FFFF_FFFF) by (nonlinear_arith)
                requires
                    sb <= 0x1F_FFFF_FFFF_FFFF,
                    p <= 0x800,
            ;
            let pb = pow2(kb as nat);
            assert(n == (sb * p * 1_000_000_000) * u) by (nonlinear_arith)
                requires
                    n == (sb * pb) * 1_000_000_000,
                    pb == p * u,
            ;
            vstd::arithmetic::div_mod::lemma_fundamental_div_mod_converse(
                n as int,
                u as int,
                (sb * p * 1_000_000_000) as int,
                0,
            );
        }
        Some(((sb as u128 * p) as u64, 0))
    } else {
        let t: u32 = 1074 - kb;
        let wide: u128 = sb as u128 * 1_000_000_000;
        proof {
            lemma_pow2_adds(kb as nat, t as nat);
            lemma_pow2_pos(kb as nat);
            lemma_pow2_pos(t as nat);
            lemma_half_even_scaled(wide as nat, pow2(t as nat), pow2(kb as nat));
            let pb = pow2(kb as nat);
            assert(n == wide * pb) by (nonlinear_arith)
                requires
                    n == (sb * pb) * 1_000_000_000,
                    wide == sb * 1_000_000_000,
            ;
        }
        if t > 126 {
            proof {
                lemma_pow2_adds(64, 63);
                if t > 127 {
                    lemma_pow2_strictly_increases(127, t as nat);
                }
                vstd::arithmetic::div_mod::lemma_basic_div(wide as int, pow2(t as nat) as int);
                vstd::arithmetic::div_mod::lemma_small_mod(wide as nat, pow2(t as nat));
            }
            Some((0, 0))
        } else {
            let p = two_to(t);
            let f: u128 = wide / p;
            let rem: u128 = wide % p;
            let half: u128 = p / 2;
            proof {
                lemma_pow2_unfold(t as nat);
                vstd::arithmetic::div_mod::lemma_div_is_ordered_by_denominator(
                    wide as int,
                    1,
                    p as int,
                );
            }
            let total: u128 = if rem < half || (rem == half && f % 2 == 0) {
                f
            } else {
                f + 1
            };
            Some(((total / 1_000_000_000) as u64, (total % 1_000_000_000) as u32))
        }
    }
}

/// A length of time of `s` seconds and `f` nanoseconds, in seconds: the rounded whole
/// seconds and the rounded fraction, added and rounded.
pub open spec fn seconds(s: nat, f: nat) -> nat {
    rounded(units(rounded(s * one(), 1)) + units(rounded(f * one(), 1_000_000_000)), 1)
}

/// The pattern of a whole number.
fn from_whole(s: u64) -> (r: u64)
    requires
        s > 0,
    ensures
        r == rounded(s as nat * one(), 1),
        power_pattern(1074) <= r <= power_pattern(1138),
{
    let q: u128 = s as u128 * 0x8000_0000_0000_0000;
    let ghost n = s as nat * one();
    proof {
        lemma2_to64();
        lemma2_to64_rest();
        lemma_pow2_adds(63, 1011);
        lemma_pow2_pos(1011);
        let pk = pow2(1011);
        let u = one();
        assert(q * (pk * 1) == n) by (nonlinear_arith)
            requires
                n == s * u,
                u == 0x8000_0000_0000_0000 * pk,
                q == s * 0x8000_0000_0000_0000,
        ;
        assert((q + 1) * (pk * 1) > q * (pk * 1)) by (nonlinear_arith)
            requires
                pk > 0,
        ;
        assert(brackets(q as nat, false, 1011, n, 1));
    }
    let r = compose(q, false, 1011);
    proof {
        lemma_nearest_unique(n, 1, r as nat);
        lemma_power_units(1074);
        lemma_power_units(1138);
        lemma_pow2_adds(64, 1074);
        lemma_pow2_pos(1074);
        let u = one();
        assert(u <= s * u <= 0x1_0000_0000_0000_0000 * u) by (nonlinear_arith)
            requires
                1 <= s <= 0x1_0000_0000_0000_0000,
                u > 0,
        ;
        lemma_nearest_between(n, 1, r as nat, power_pattern(1074), power_pattern(1138));
    }
    r
}

/// The pattern of `f` nanoseconds in seconds.
fn from_nanoseconds(f: u32) -> (r: u64)
    requires
        0 < f < 1_000_000_000,
    ensures
        r == rounded(f as nat * one(), 1_000_000_000),
        power_pattern(1044) <= r <= power_pattern(1074),
{
    let wide: u128 = f as u128 * 0x1_0000_0000_0000_0000_0000_0000;
    let q: u128 = wide / 1_000_000_000;
    let rem: u128 = wide % 1_000_000_000;
    let ghost n = f as nat * one();
    proof {
        lemma2_to64();
        lemma2_to64_rest();
        lemma_pow2_adds(64, 32);
        lemma_pow2_adds(96, 978);
        lemma_pow2_pos(978);
        let pk = pow2(978);
        let u = one();
        assert(wide == q * 1_000_000_000 + rem);
        assert(n == wide * pk) by (nonlinear_arith)
            requires
                n == f * u,
                u == 0x1_0000_0000_0000_0000_0000_0000 * pk,
                wide == f * 0x1_0000_0000_0000_0000_0000_0000,
        ;
        assert(q * (pk * 1_000_000_000) + rem * pk == n) by (nonlinear_arith)
            requires
                n == wide * pk,
                wide == q * 1_000_000_000 + rem,
        ;
        assert((q + 1) * (pk * 1_000_000_000) == q * (pk * 1_000_000_000) + pk * 1_000_000_000)
            by (nonlinear_arith);
        assert(rem * pk < pk * 1_000_000_000) by (nonlinear_arith)
            requires
                rem < 1_000_000_000,
                pk > 0,
        ;
        assert(rem * pk == 0 <==> rem == 0) by (nonlinear_arith)
            requires
                pk > 0,
        ;
        assert(brackets(q as nat, rem != 0, 978, n, 1_000_000_000));
    }
    let r = compose(q, rem != 0, 978);
    proof {
        lemma_nearest_unique(n, 1_000_000_000, r as nat);
        lemma_power_units(1044);
        lemma_power_units(1074);
        lemma_pow2_adds(30, 1044);
        lemma_pow2_pos(1044);
        let u = one();
        let v = pow2(1044);
        assert(v * 1_000_000_000 <= f * u <= u * 1_000_000_000) by (nonlinear_arith)
            requires
                1 <= f <= 1_000_000_000,
                u == 0x4000_0000 * v,
                v > 0,
        ;
        lemma_nearest_between(
            n,
            1_000_000_000,
            r as nat,
            power_pattern(1044),
            power_pattern(1074),
        );
    }
    r
}

/// Steps of 2^-63 in a number between 2^-30 and 2^64, and whether anything is left over.
fn fixed_point(b: u64) -> (r: (u128, bool))
    requires
        power_pattern(1044) <= b <= power_pattern(1138),
    ensures
        brackets(r.0 as nat, r.1, 1011, units(b as nat), 1),
        b >= power_pattern(1074) ==> !r.1 && r.0 >= 0x8000_0000_0000_0000,
        b <= power_pattern(1074) ==> r.0 <= 0x8000_0000_0000_0000,
        r.0 <= 0x8000_0000_0000_0000_0000_0000_0000_0000,
{
    proof {
        lemma_scale_between(b as nat, 1044, 1138);
        lemma2_to64();
        lemma2_to64_rest();
        lemma_power_units(1074);
        lemma_power_units(1138);
        lemma_pow2_adds(63, 1011);
        lemma_pow2_adds(64, 1074);
        lemma_pow2_pos(1011);
        if b > power_pattern(1074) {
            lemma_units_increase(power_pattern(1074), b as nat);
            lemma_scale_between(b as nat, 1074, 1138);
        } else if b < power_pattern(1074) {
            lemma_units_increase(b as nat, power_pattern(1074));
        }
        if b < power_pattern(1138) {
            lemma_units_increase(b as nat, power_pattern(1138));
        }
    }
    let (sb, kb) = split(b);
    let ghost n = units(b as nat);
    let ghost pk = pow2(1011);
    if kb >= 1011 {
        let p = two_to(kb - 1011);
        proof {
            lemma_pow2_adds((kb - 1011) as nat, 1011);
            let pb = pow2(kb as nat);
            assert((sb * p) * pk == n) by (nonlinear_arith)
                requires
                    n == sb * pb,
                    pb == p * pk,
            ;
            lemma_steps((sb * p) as nat, 0, n, pk);
            assert((sb * p + 1) * (pk * 1) > (sb * p) * (pk * 1)) by (nonlinear_arith)
                requires
                    pk > 0,
            ;
        }
        (sb as u128 * p, false)
    } else {
        let t: u32 = 1011 - kb;
        let p = two_to(t);
        let q: u128 = sb as u128 / p;
        let rem: u128 = sb as u128 % p;
        proof {
            lemma_pow2_adds(kb as nat, t as nat);
            lemma_pow2_pos(kb as nat);
            let pb = pow2(kb as nat);
            lemma_scaled_div(sb as nat, p as nat, pb);
            vstd::arithmetic::div_mod::lemma_fundamental_div_mod(n as int, pk as int);
            vstd::arithmetic::div_mod::lemma_mod_bound(n as int, pk as int);
            assert(n == q * pk + rem * pb) by {
                lemma_mul_is_commutative(q as int, pk as int);
            }
            assert(rem * pb == 0 <==> rem == 0) by (nonlinear_arith)
                requires
                    pb > 0,
            ;
            assert((q + 1) * (pk * 1) == q * (pk * 1) + pk) by (nonlinear_arith);
            lemma_steps(q as nat, (rem * pb) as nat, n, pk);
        }
        (q, rem != 0)
    }
}

/// Bounds on whole steps from bounds on what they are steps of.
proof fn lemma_steps(q: nat, rest: nat, n: nat, pk: nat)
    requires
        n == q * pk + rest,
        pk > 0,
    ensures
        n <= 0x8000_0000_0000_0000 * pk ==> q <= 0x8000_0000_0000_0000,
        n <= 0x8000_0000_0000_0000_0000_0000_0000_0000 * pk ==> q
            <= 0x8000_0000_0000_0000_0000_0000_0000_0000,
        rest == 0 && n >= 0x8000_0000_0000_0000 * pk ==> q >= 0x8000_0000_0000_0000,
{
    if n <= 0x8000_0000_0000_0000 * pk {
        assert(q <= 0x8000_0000_0000_0000) by (nonlinear_arith)
            requires
                q * pk <= 0x8000_0000_0000_0000 * pk,
                pk > 0,
        ;
    }
    if n <= 0x8000_0000_0000_0000_0000_0000_0000_0000 * pk {
        assert(q <= 0x8000_0000_0000_0000_0000_0000_0000_0000) by (nonlinear_arith)
            requires
                q * pk <= 0x8000_0000_0000_0000_0000_0000_0000_0000 * pk,
                pk > 0,
        ;
    }
    if rest == 0 && n >= 0x8000_0000_0000_0000 * pk {
        assert(q >= 0x8000_0000_0000_0000) by (nonlinear_arith)
            requires
                q * pk >= 0x8000_0000_0000_0000 * pk,
                pk > 0,
        ;
    }
}

/// A length of time in seconds.
pub fn from_seconds(secs: u64, nanos: u32) -> (r: u64)
    requires
        nanos < 1_000_000_000,
    ensures
        r == seconds(secs as nat, nanos as nat),
        secs == 0 && nanos == 0 ==> r == 0,
        secs != 0 || nanos != 0 ==> power_pattern(1044) <= r <= power_pattern(1139),
{
    proof {
        lemma2_to64();
        lemma_zero_units();
        lemma_rounded_exact(0, 1);
        lemma_rounded_exact(0, 1_000_000_000);
        assert(0nat * one() == 0) by (nonlinear_arith);
    }
    if secs == 0 {
        if nanos == 0 {
            return 0;
        }
        let x = from_nanoseconds(nanos);
        proof {
            lemma_rounded_exact(x as nat, 1);
        }
        return x;
    }
    let w = from_whole(secs);
    if nanos == 0 {
        proof {
            lemma_rounded_exact(w as nat, 1);
        }
        return w;
    }
    let x = from_nanoseconds(nanos);
    let (qw, exact) = fixed_point(w);
    let (qx, sticky) = fixed_point(x);
    let q: u128 = qw + qx;
    let ghost n = units(w as nat) + units(x as nat);
    proof {
        let pk = pow2(1011);
        assert(q * (pk * 1) == qw * (pk * 1) + qx * (pk * 1)) by (nonlinear_arith)
            requires
                q == qw + qx,
        ;
        assert((q + 1) * (pk * 1) == qw * (pk * 1) + (qx + 1) * (pk * 1)) by (nonlinear_arith)
            requires
                q == qw + qx,
        ;
        assert(brackets(q as nat, sticky, 1011, n, 1));
    }
    let r = compose(q, sticky, 1011);
    proof {
        lemma_nearest_unique(n, 1, r as nat);
        lemma_power_units(1044);
        lemma_power_units(1074);
        lemma_power_units(1138);
        lemma_power_units(1139);
        lemma_pow2_unfold(1139);
        lemma_units_ordered(power_pattern(1044), x as nat);
        lemma_units_ordered(x as nat, power_pattern(1074));
        lemma_units_ordered(w as nat, power_pattern(1138));
        lemma_pow2_strictly_increases(1074, 1138);
        lemma_nearest_between(n, 1, r as nat, power_pattern(1044), power_pattern(1139));
    }
    r
}

/// Zero holds no units.
pub proof fn lemma_zero_units()
    ensures
        units(0) == 0,
{
    assert(0nat * pow2(0) == 0) by (nonlinear_arith);
}

/// Patterns are ordered as the numbers are.
pub proof fn lemma_units_ordered(a: nat, b: nat)
    requires
        a <= b,
    ensures
        units(a) <= units(b),
{
    if a < b {
        lemma_units_increase(a, b);
    }
}

/// Rounding is monotone for one denominator.
pub proof fn lemma_rounded_monotone(n1: nat, n2: nat, d: nat)
    requires
        d > 0,
        n1 <= n2,
    ensures
        rounded(n1, d) <= rounded(n2, d),
        units(rounded(n1, d)) <= units(rounded(n2, d)),
{
    lemma_rounded(n1, d);
    lemma_rounded(n2, d);
    lemma_mul_inequality(n1 as int, n2 as int, d as int);
    lemma_nearest_monotone(n1, d, rounded(n1, d), n2, d, rounded(n2, d));
    lemma_units_ordered(rounded(n1, d), rounded(n2, d));
}

/// The number of bits in front of the leading bit of `s`.
proof fn lemma_leading(s: nat) -> (e: nat)
    requires
        s > 0,
    ensures
        pow2(e) <= s < pow2(e + 1),
    decreases s,
{
    lemma2_to64();
    if s == 1 {
        0
    } else {
        let e = lemma_leading(s / 2);
        lemma_pow2_unfold(e + 1);
        lemma_pow2_unfold(e + 2);
        e + 1
    }
}

/// A whole number of at most 53 bits is represented exactly.
pub proof fn lemma_whole_exact(s: nat)
    requires
        s <= 0x20_0000_0000_0000,
    ensures
        units(rounded(s * one(), 1)) == s * one(),
{
    lemma2_to64();
    lemma2_to64_rest();
    let u = one();
    if s == 0 {
        lemma_zero_units();
        lemma_rounded_exact(0, 1);
        assert(0nat * u == 0) by (nonlinear_arith);
    } else if s == 0x20_0000_0000_0000 {
        lemma_power_units(1127);
        lemma_pow2_adds(53, 1074);
        lemma_rounded_exact(power_pattern(1127), 1);
    } else {
        let e = lemma_leading(s);
        if e > 52 {
            if e > 53 {
                lemma_pow2_strictly_increases(53, e);
            }
            assert(false);
        }
        let p = pow2((52 - e) as nat);
        let m = s * p;
        lemma_pow2_adds(e, (52 - e) as nat);
        lemma_pow2_adds(e + 1, (52 - e) as nat);
        lemma_pow2_pos((52 - e) as nat);
        let e0 = pow2(e);
        let e1 = pow2(e + 1);
        assert(e0 * p <= m < e1 * p) by (nonlinear_arith)
            requires
                e0 <= s < e1,
                m == s * p,
                p > 0,
        ;
        let x = (1022 + e) as nat;
        let b = (x * HIDDEN + m) as nat;
        lemma_composed_units(m, x, b);
        lemma_pow2_adds((52 - e) as nat, x);
        let px = pow2(x);
        assert(m * px == s * (p * px)) by (nonlinear_arith)
            requires
                m == s * p,
        ;
        assert(b <= INFINITE);
        lemma_rounded_exact(b, 1);
    }
}

/// A fraction of a second is less than a second also when it is rounded.
proof fn lemma_fraction_below_one(f: nat)
    requires
        f < 1_000_000_000,
    ensures
        units(rounded(f * one(), 1_000_000_000)) < one(),
{
    let u = one();
    let g = 1_000_000_000nat;
    let x = rounded(f * u, g);
    let top = power_pattern(1074);
    lemma_power_units(1074);
    lemma_pow2_pos(1074);
    lemma_rounded(f * u, g);
    lemma_zero_units();
    assert(f * u <= u * g) by (nonlinear_arith)
        requires
            f <= g,
    ;
    lemma_nearest_between(f * u, g, x, 0, top);
    if x == top {
        lemma_units_step((top - 1) as nat);
        vstd::arithmetic::div_mod::lemma_fundamental_div_mod_converse(
            (top - 1) as int,
            HIDDEN as int,
            1022,
            HIDDEN - 1,
        );
        let v = pow2(1021);
        lemma2_to64();
        lemma2_to64_rest();
        lemma_pow2_adds(53, 1021);
        lemma_pow2_pos(1021);
        let low = (units((top - 1) as nat) + units(top)) * g;
        assert(units((top - 1) as nat) == u - v);
        assert(2 * (f * u) < low) by (nonlinear_arith)
            requires
                low == ((u - v) + u) * g,
                u == 0x20_0000_0000_0000 * v,
                v > 0,
                f + 1 <= g,
                g == 1_000_000_000,
        ;
        assert(false);
    }
    lemma_units_increase(x, top);
}

/// A longer time is at least as many seconds after rounding.
pub proof fn lemma_seconds_monotone(s1: nat, f1: nat, s2: nat, f2: nat)
    requires
        f1 < 1_000_000_000,
        f2 < 1_000_000_000,
        s1 * 1_000_000_000 + f1 <= s2 * 1_000_000_000 + f2,
        s2 <= u64::MAX,
    ensures
        seconds(s1, f1) <= seconds(s2, f2),
{
    let u = one();
    let g = 1_000_000_000nat;
    let w1 = rounded(s1 * u, 1);
    let w2 = rounded(s2 * u, 1);
    let x1 = rounded(f1 * u, g);
    let x2 = rounded(f2 * u, g);
    lemma_mul_inequality(s1 as int, s2 as int, u as int);
    lemma_rounded_monotone(s1 * u, s2 * u, 1);
    if s1 == s2 {
        lemma_mul_inequality(f1 as int, f2 as int, u as int);
        lemma_rounded_monotone(f1 * u, f2 * u, g);
        lemma_rounded_monotone(units(w1) + units(x1), units(w2) + units(x2), 1);
    } else {
        lemma_rounded(s2 * u, 1);
        lemma_rounded_exact(w2, 1);
        lemma_rounded_monotone(units(w2), units(w2) + units(x2), 1);
        lemma_fraction_below_one(f1);
        if s1 < 0x20_0000_0000_0000 {
            lemma_whole_exact(s1);
            lemma_whole_exact(s1 + 1);
            assert((s1 + 1) * u == s1 * u + u) by (nonlinear_arith);
            lemma_rounded_monotone(units(w1) + units(x1), (s1 + 1) * u, 1);
            lemma_mul_inequality((s1 + 1) as int, s2 as int, u as int);
            lemma_rounded_monotone((s1 + 1) * u, s2 * u, 1);
        } else {
            lemma2_to64();
            lemma2_to64_rest();
            lemma_pow2_adds(53, 1074);
            lemma_pow2_adds(64, 1074);
            lemma_pow2_pos(1074);
            lemma_power_units(1127);
            lemma_power_units(1138);
            lemma_rounded(s1 * u, 1);
            lemma_mul_inequality(0x20_0000_0000_0000, s1 as int, u as int);
            lemma_mul_inequality(s1 as int, 0x1_0000_0000_0000_0000, u as int);
            lemma_nearest_between(s1 * u, 1, w1, power_pattern(1127), power_pattern(1138));
            lemma_scale_between(w1, 1127, 1138);
            lemma_units_step(w1);
            lemma_units_increase((w1 - 1) as nat, w1);
            lemma_pow2_unfold(1075);
            if scale(w1) > 1075 {
                lemma_pow2_strictly_increases(1075, scale(w1));
            }
            assert(nearest(units(w1) + units(x1), 1, w1));
            lemma_nearest_unique(units(w1) + units(x1), 1, w1);
        }
    }
}

/// A time that is not zero is more than zero seconds after rounding.
pub proof fn lemma_seconds_positive(s: nat, f: nat)
    requires
        f < 1_000_000_000,
        s <= u64::MAX,
        s > 0 || f > 0,
    ensures
        units(seconds(s, f)) > 0,
{
    let u = one();
    lemma_zero_units();
    lemma_rounded_exact(0, 1);
    assert(0nat * u == 0) by (nonlinear_arith);
    let x = rounded(1 * u, 1_000_000_000);
    lemma_rounded(1 * u, 1_000_000_000);
    lemma_rounded_exact(x, 1);
    lemma_seconds_monotone(0, 1, s, f);
    lemma_power_units(1044);
    lemma_power_units(1074);
    lemma2_to64();
    lemma_pow2_adds(30, 1044);
    lemma_pow2_pos(1044);
    lemma_nearest_between(1 * u, 1_000_000_000, x, power_pattern(1044), power_pattern(1074));
    lemma_units_increase(0, x);
    lemma_units_ordered(x, seconds(s, f));
}

/// The largest length of time, in nanoseconds, plus one.
pub open spec fn time_limit() -> nat {
    0x1_0000_0000_0000_0000 * 1_000_000_000
}

/// The nanoseconds between events at `b` events a second: one over the rate, rounded,
/// then rounded to whole nanoseconds. There are none for a rate that is zero, negative
/// or not a number, nor where the seconds need more than 64 bits.
pub open spec fn period(b: nat) -> Option<nat> {
    if b == INFINITE || b == SIGN + INFINITE {
        Some(0)
    } else if b == 0 || b > INFINITE || nanoseconds(rounded(one() * one(), units(b)))
        >= time_limit() {
        None
    } else {
        Some(nanoseconds(rounded(one() * one(), units(b))))
    }
}

/// A number far below a nanosecond rounds to no nanoseconds.
pub proof fn lemma_vanishing(r: nat)
    requires
        r <= power_pattern(1014),
    ensures
        nanoseconds(r) == 0,
{
    lemma_power_units(1014);
    lemma_units_ordered(r, power_pattern(1014));
    lemma2_to64();
    lemma2_to64_rest();
    lemma_pow2_adds(60, 1014);
    lemma_pow2_pos(1014);
    let n = units(r) * 1_000_000_000;
    vstd::arithmetic::div_mod::lemma_basic_div(n as int, one() as int);
    vstd::arithmetic::div_mod::lemma_small_mod(n, one());
}

/// The seconds and nanoseconds between events at a given rate.
pub fn event_period(b: u64) -> (r: Option<(u64, u32)>)
    ensures
        r matches Some(p) ==> p.1 < 1_000_000_000 && period(b as nat) == Some(
            (p.0 * 1_000_000_000 + p.1) as nat,
        ),
        r is None ==> period(b as nat) is None,
{
    if b == INFINITE || b == 0xFFF0_0000_0000_0000 {
        return Some((0, 0));
    }
    if b == 0 || b > INFINITE {
        return None;
    }
    let ghost u = one();
    let ghost d = units(b as nat);
    let ghost r = rounded(u * u, d);
    proof {
        lemma_zero_units();
        lemma_units_increase(0, b as nat);
        lemma_rounded(u * u, d);
        lemma2_to64();
        lemma2_to64_rest();
        lemma_pow2_pos(1074);
    }
    if b > 0x43B0_0000_0000_0000 {
        proof {
            lemma_power_units(1134);
            lemma_power_units(1014);
            lemma_units_ordered(power_pattern(1134), b as nat);
            lemma_pow2_adds(1014, 1134);
            lemma_pow2_adds(1074, 1074);
            let v = pow2(1014);
            let w = pow2(1134);
            assert(u * u <= v * d) by (nonlinear_arith)
                requires
                    u * u == v * w,
                    w <= d,
            ;
            lemma_nearest_between(u * u, d, r, 0, power_pattern(1014));
            lemma_vanishing(r);
        }
        return Some((0, 0));
    }
    if b < 0x3BD0_0000_0000_0000 {
        proof {
            lemma_power_units(1008);
            lemma_power_units(1140);
            lemma_units_ordered(b as nat, power_pattern(1008));
            lemma_pow2_adds(1008, 1140);
            lemma_pow2_adds(1074, 1074);
            let v = pow2(1140);
            let w = pow2(1008);
            assert(v * d <= u * u) by (nonlinear_arith)
                requires
                    u * u == w * v,
                    d <= w,
            ;
            lemma_rounded_exact(power_pattern(1140), d);
            lemma_rounded_monotone(v * d, u * u, d);
            lemma_pow2_adds(66, 1074);
            lemma_pow2_adds(64, 2);
            let n = units(r) * 1_000_000_000;
            assert(n >= time_limit() * u) by (nonlinear_arith)
                requires
                    n == units(r) * 1_000_000_000,
                    units(r) >= 0x4_0000_0000_0000_0000 * u,
                    time_limit() == 0x1_0000_0000_0000_0000 * 1_000_000_000,
            ;
            lemma_div_at_least(n, u, time_limit());
        }
        return None;
    }
    proof {
        lemma_power_units(1074);
    }
    let q = quotient(0x3FF0_0000_0000_0000, b);
    proof {
        lemma_nearest_unique(u * u, d, q as nat);
    }
    to_nanoseconds(q)
}

} // verus!
