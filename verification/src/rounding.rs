//! Binary64 arithmetic on integers.
//!
//! The resampler and the fades work with numbers of 53 significant bits, rounded
//! to the nearest one after every operation, ties to the even neighbour. A number
//! is held here as an integer count of a power of two: its *ticks* where the unit
//! is 2^-53 ([`ONE`] ticks make 1), smaller units where the text says so.
//! Multiplying a number by a power of two does not change which of its digits are
//! significant, so one rounding function, [`nearest`], serves every unit.

use vstd::arithmetic::div_mod::*;
use vstd::arithmetic::power2::*;
use vstd::prelude::*;

verus! {

/// Ticks in 1, and the first count that no longer fits in 53 significant bits.
pub const ONE: u64 = 0x20_0000_0000_0000;

/// Ticks in one half, and the smallest count that fills 53 significant bits.
pub const HALF: u64 = 0x10_0000_0000_0000;

/// `n / d` rounded to the nearest whole number, ties to even.
pub open spec fn half_even(n: nat, d: nat) -> nat {
    pick(n / d, n % d, d)
}

/// The rounding of `q + r / d`.
pub open spec fn pick(q: nat, r: nat, d: nat) -> nat {
    if 2 * r < d || (2 * r == d && q % 2 == 0) {
        q
    } else {
        q + 1
    }
}

/// The place value of the last of the 53 significant bits of `x`.
pub open spec fn ulp(x: nat) -> nat
    decreases x,
{
    if x < ONE {
        1
    } else {
        2 * ulp(x / 2)
    }
}

/// `x` rounded to 53 significant bits.
pub open spec fn nearest(x: nat) -> nat {
    half_even(x, ulp(x)) * ulp(x)
}

/// `n / d` rounded to 53 significant bits. It is meant for quotients that have
/// that many digits before the point: scale `n` up until they do.
pub open spec fn quotient(n: nat, d: nat) -> nat {
    half_even(n, d * ulp(n / d)) * ulp(n / d)
}

/// Ticks rounded to the nearest whole number, ties away from zero.
pub open spec fn whole(ticks: nat) -> nat {
    (ticks + HALF) as nat / ONE as nat
}

/// Rounding of a quotient, given quotient and remainder.
pub proof fn lemma_half_even(n: nat, d: nat, q: nat, r: nat)
    requires
        n == q * d + r,
        r < d,
    ensures
        half_even(n, d) == pick(q, r, d),
{
    lemma_fundamental_div_mod_converse(n as int, d as int, q as int, r as int);
}

/// A common factor of both sides does not change the rounded quotient.
pub proof fn lemma_half_even_scales(n: nat, d: nat, k: nat)
    requires
        d > 0,
        k > 0,
    ensures
        d * k > 0,
        half_even(n * k, d * k) == half_even(n, d),
{
    let q = n / d;
    let r = n % d;
    lemma_fundamental_div_mod(n as int, d as int);
    assert(d * k > 0) by (nonlinear_arith)
        requires
            d > 0,
            k > 0,
    ;
    assert(n * k == q * (d * k) + r * k) by (nonlinear_arith)
        requires
            n == d * q + r,
    ;
    assert(r * k < d * k) by (nonlinear_arith)
        requires
            r < d,
            k > 0,
    ;
    lemma_half_even(n * k, d * k, q, r * k);
    assert((2 * (r * k) < d * k) == (2 * r < d)) by (nonlinear_arith)
        requires
            k > 0,
    ;
    assert((2 * (r * k) == d * k) == (2 * r == d)) by (nonlinear_arith)
        requires
            k > 0,
    ;
}

/// A multiple of the unit is already rounded.
pub proof fn lemma_half_even_exact(q: nat, d: nat)
    requires
        d > 0,
    ensures
        half_even(q * d, d) == q,
{
    lemma_half_even(q * d, d, q, 0);
}

/// Rounded quotients grow with the numerator.
pub proof fn lemma_half_even_monotone(a: nat, b: nat, d: nat)
    requires
        a <= b,
        d > 0,
    ensures
        half_even(a, d) <= half_even(b, d),
{
    lemma_fundamental_div_mod(a as int, d as int);
    lemma_fundamental_div_mod(b as int, d as int);
    let qa = a / d;
    let qb = b / d;
    assert(qa <= qb) by (nonlinear_arith)
        requires
            a == d * qa + a % d,
            b == d * qb + b % d,
            a <= b,
            0 <= a % d < d,
            0 <= b % d < d,
    ;
    if qa == qb {
        assert(a % d <= b % d);
    }
}

/// Adding an even multiple of the unit shifts the rounded quotient.
pub proof fn lemma_half_even_plus(a: nat, b: nat, d: nat)
    requires
        d > 0,
        a % 2 == 0,
    ensures
        half_even(a * d + b, d) == a + half_even(b, d),
{
    lemma_fundamental_div_mod(b as int, d as int);
    let q = b / d;
    assert(a * d + b == (a + q) * d + b % d) by (nonlinear_arith)
        requires
            b == d * q + b % d,
    ;
    lemma_half_even(a * d + b, d, a + q, b % d);
}

/// Subtracting from an even multiple of the unit mirrors the rounded quotient.
pub proof fn lemma_half_even_minus(a: nat, b: nat, d: nat)
    requires
        d > 0,
        a % 2 == 0,
        b <= a * d,
    ensures
        half_even(b, d) <= a,
        half_even((a * d - b) as nat, d) == a - half_even(b, d),
{
    lemma_fundamental_div_mod(b as int, d as int);
    let q = b / d;
    let r = b % d;
    assert(q <= a) by (nonlinear_arith)
        requires
            b == d * q + r,
            b <= a * d,
            r >= 0,
            d > 0,
    ;
    if r == 0 {
        assert(a * d - b == (a - q) * d) by (nonlinear_arith)
            requires
                b == d * q,
        ;
        lemma_half_even((a * d - b) as nat, d, (a - q) as nat, 0);
    } else {
        assert(q < a) by (nonlinear_arith)
            requires
                b == d * q + r,
                b <= a * d,
                0 < r,
                d > 0,
        ;
        assert(a * d - b == (a - q - 1) * d + (d - r)) by (nonlinear_arith)
            requires
                b == d * q + r,
        ;
        lemma_half_even((a * d - b) as nat, d, (a - q - 1) as nat, (d - r) as nat);
    }
}

/// Every number lies below 53 bits of its last place, and has them filled once
/// the last place is above 1.
pub proof fn lemma_ulp_bounds(x: nat)
    ensures
        ulp(x) >= 1,
        x < ONE * ulp(x),
        ulp(x) > 1 ==> x >= HALF * ulp(x),
    decreases x,
{
    if x >= ONE {
        lemma_ulp_bounds(x / 2);
    }
}

/// The last place of a larger number is the same or at least twice as large.
pub proof fn lemma_ulp_monotone(x: nat, y: nat)
    requires
        x <= y,
    ensures
        ulp(x) == ulp(y) || 2 * ulp(x) <= ulp(y),
    decreases y,
{
    if x >= ONE {
        lemma_ulp_monotone(x / 2, y / 2);
    } else if y >= ONE {
        lemma_ulp_bounds(y / 2);
    }
}

/// The last place of a number between two consecutive powers of two.
pub proof fn lemma_ulp_of_range(x: nat, k: nat)
    requires
        pow2(52 + k) <= x < pow2(53 + k),
    ensures
        ulp(x) == pow2(k),
    decreases k,
{
    lemma2_to64();
    lemma2_to64_rest();
    if k > 0 {
        lemma_pow2_unfold(52 + k);
        lemma_pow2_unfold(53 + k);
        lemma_pow2_unfold(k);
        lemma_ulp_of_range(x / 2, (k - 1) as nat);
        lemma_pow2_at_least(53, 52 + k);
    }
}

/// Powers of two grow with the exponent.
pub proof fn lemma_pow2_at_least(a: nat, b: nat)
    requires
        a <= b,
    ensures
        pow2(a) <= pow2(b),
{
    if a < b {
        lemma_pow2_strictly_increases(a, b);
    }
}

/// Rounding respects order.
pub proof fn lemma_nearest_monotone(x: nat, y: nat)
    requires
        x <= y,
    ensures
        nearest(x) <= nearest(y),
{
    lemma_ulp_bounds(x);
    lemma_ulp_bounds(y);
    lemma_ulp_monotone(x, y);
    let u = ulp(x);
    let v = ulp(y);
    if u == v {
        lemma_half_even_monotone(x, y, u);
        assert(half_even(x, u) * u <= half_even(y, u) * u) by (nonlinear_arith)
            requires
                half_even(x, u) <= half_even(y, u),
        ;
    } else {
        let top: nat = ONE as nat;
        let half: nat = HALF as nat;
        lemma_half_even_monotone(x, top * u, u);
        lemma_half_even_exact(top, u);
        lemma_half_even_monotone(half * v, y, v);
        lemma_half_even_exact(half, v);
        assert(half_even(x, u) * u <= top * u) by (nonlinear_arith)
            requires
                half_even(x, u) <= top,
        ;
        assert(half * v <= half_even(y, v) * v) by (nonlinear_arith)
            requires
                half <= half_even(y, v),
        ;
    }
}

/// Doubling a number doubles its rounding.
pub proof fn lemma_nearest_doubles(x: nat)
    ensures
        nearest(2 * x) == 2 * nearest(x),
{
    lemma_ulp_bounds(x);
    let u = ulp(x);
    if 2 * x < ONE {
        lemma_half_even_exact(x, 1);
        lemma_half_even_exact(2 * x, 1);
    } else {
        assert((2 * x) / 2 == x);
        assert(ulp(2 * x) == 2 * u);
        lemma_half_even_scales(x, u, 2);
        assert(half_even(x, u) * (2 * u) == 2 * (half_even(x, u) * u)) by (nonlinear_arith);
    }
}

/// Scaling a number by a power of two scales its rounding.
pub proof fn lemma_nearest_scales(x: nat, k: nat)
    ensures
        nearest(x * pow2(k)) == nearest(x) * pow2(k),
    decreases k,
{
    lemma2_to64();
    if k > 0 {
        let j: nat = (k - 1) as nat;
        lemma_pow2_unfold(k);
        lemma_nearest_scales(x, j);
        lemma_nearest_doubles(x * pow2(j));
        let p = pow2(j);
        let y = nearest(x);
        assert(x * (2 * p) == 2 * (x * p)) by (nonlinear_arith);
        assert(y * (2 * p) == 2 * (y * p)) by (nonlinear_arith);
        assert(x * pow2(k) == 2 * (x * p));
        assert(nearest(x * pow2(k)) == 2 * nearest(x * p));
        assert(y * pow2(k) == 2 * (y * p));
    } else {
        let y = nearest(x);
        assert(x * 1 == x && y * 1 == y);
    }
}

/// The last place is a power of two.
pub proof fn lemma_ulp_is_power(x: nat) -> (k: nat)
    ensures
        ulp(x) == pow2(k),
    decreases x,
{
    lemma2_to64();
    if x < ONE {
        0
    } else {
        let j = lemma_ulp_is_power(x / 2);
        lemma_pow2_unfold(j + 1);
        j + 1
    }
}

/// A rounded number is not changed by rounding it again.
pub proof fn lemma_nearest_idempotent(x: nat)
    ensures
        nearest(nearest(x)) == nearest(x),
{
    let u = ulp(x);
    let k = lemma_ulp_is_power(x);
    lemma_ulp_bounds(x);
    lemma_half_even_monotone(x, ONE as nat * u, u);
    lemma_half_even_exact(ONE as nat, u);
    lemma_nearest_small(half_even(x, u));
    lemma_nearest_scales(half_even(x, u), k);
}

/// Rounding a quotient moves it by at most one half.
pub proof fn lemma_half_even_error(n: nat, d: nat)
    requires
        d > 0,
    ensures
        -(d as int) <= 2 * (half_even(n, d) * d - n) <= d,
{
    let q = n / d;
    lemma_fundamental_div_mod(n as int, d as int);
    lemma_mod_bound(n as int, d as int);
    assert(d * q == q * d) by (nonlinear_arith);
    assert((q + 1) * d == q * d + d) by (nonlinear_arith);
}

/// Rounding moves a number by at most half of its last place.
pub proof fn lemma_nearest_error(x: nat)
    ensures
        -(ulp(x) as int) <= 2 * (nearest(x) - x) <= ulp(x),
{
    lemma_ulp_bounds(x);
    lemma_half_even_error(x, ulp(x));
}

/// Rounding moves a number by at most one part in 2^53.
pub proof fn lemma_nearest_relative(x: nat)
    ensures
        -(x as int) <= ONE * (nearest(x) - x) <= x,
{
    lemma_ulp_bounds(x);
    if x < ONE {
        lemma_nearest_small(x);
    } else {
        lemma_ulp_bounds(x / 2);
        lemma_nearest_error(x);
    }
}

/// Rounding a large quotient moves it by at most one part in 2^53.
pub proof fn lemma_quotient_relative(n: nat, d: nat)
    requires
        d > 0,
        n >= ONE * d,
    ensures
        -(n as int) <= ONE * (quotient(n, d) * d - n) <= n,
{
    let q = n / d;
    let u = ulp(q);
    let h = half_even(n, d * u);
    lemma_fundamental_div_mod(n as int, d as int);
    lemma_mod_bound(n as int, d as int);
    assert(q >= ONE) by (nonlinear_arith)
        requires
            n == d * q + n % d,
            n % d < d,
            n >= ONE * d,
            d > 0,
    ;
    lemma_ulp_bounds(q);
    lemma_ulp_bounds(q / 2);
    assert(d * u > 0) by (nonlinear_arith)
        requires
            d > 0,
            u > 0,
    ;
    lemma_half_even_error(n, d * u);
    assert(h * u * d == h * (d * u)) by (nonlinear_arith);
    assert(HALF * (d * u) <= n) by (nonlinear_arith)
        requires
            HALF * u <= q,
            n == d * q + n % d,
            n % d >= 0,
            d > 0,
    ;
}

/// Rounded quotients respect the order of their numerators.
pub proof fn lemma_quotient_monotone(a: nat, b: nat, d: nat)
    requires
        a <= b,
        d > 0,
    ensures
        quotient(a, d) <= quotient(b, d),
{
    let x = a / d;
    let y = b / d;
    let u = ulp(x);
    let v = ulp(y);
    lemma_div_is_ordered(a as int, b as int, d as int);
    lemma_ulp_bounds(x);
    lemma_ulp_bounds(y);
    lemma_ulp_monotone(x, y);
    assert(d * u > 0 && d * v > 0) by (nonlinear_arith)
        requires
            d > 0,
            u > 0,
            v > 0,
    ;
    let s = half_even(a, d * u);
    let t = half_even(b, d * v);
    if u == v {
        lemma_half_even_monotone(a, b, d * u);
        assert(s * u <= t * u) by (nonlinear_arith)
            requires
                s <= t,
        ;
    } else {
        let top: nat = ONE as nat;
        let half: nat = HALF as nat;
        lemma_fundamental_div_mod(a as int, d as int);
        lemma_fundamental_div_mod(b as int, d as int);
        lemma_mod_bound(a as int, d as int);
        lemma_mod_bound(b as int, d as int);
        assert(a <= top * (d * u)) by (nonlinear_arith)
            requires
                a == d * x + a % d,
                a % d < d,
                x + 1 <= top * u,
                d > 0,
        ;
        assert(half * (d * v) <= b) by (nonlinear_arith)
            requires
                b == d * y + b % d,
                b % d >= 0,
                half * v <= y,
                d > 0,
        ;
        lemma_half_even_monotone(a, top * (d * u), d * u);
        lemma_half_even_exact(top, d * u);
        lemma_half_even_monotone(half * (d * v), b, d * v);
        lemma_half_even_exact(half, d * v);
        assert(s * u <= top * u) by (nonlinear_arith)
            requires
                s <= top,
        ;
        assert(half * v <= t * v) by (nonlinear_arith)
            requires
                half <= t,
        ;
    }
}

/// Up to 53 significant bits nothing is rounded away.
pub proof fn lemma_nearest_small(x: nat)
    requires
        x <= ONE,
    ensures
        nearest(x) == x,
{
    if x < ONE {
        lemma_half_even_exact(x, 1);
    } else {
        lemma_ulp_bounds(x / 2);
        assert(ulp(x) == 2);
        lemma_half_even_exact(HALF as nat, 2);
    }
}

/// Scaling the numerator by a power of two scales the rounded quotient, once the
/// quotient fills 53 bits.
pub proof fn lemma_quotient_scales(n: nat, d: nat, k: nat)
    requires
        d > 0,
        n / d >= HALF,
    ensures
        quotient(n * pow2(k), d) == quotient(n, d) * pow2(k),
        (n * pow2(k)) / d >= HALF,
    decreases k,
{
    lemma2_to64();
    if k > 0 {
        let j: nat = (k - 1) as nat;
        lemma_pow2_unfold(k);
        lemma_quotient_scales(n, d, j);
        let m = n * pow2(j);
        assert(n * (2 * pow2(j)) == 2 * m) by (nonlinear_arith)
            requires
                m == n * pow2(j),
        ;
        lemma_fundamental_div_mod(m as int, d as int);
        let q = m / d;
        let r = m % d;
        let b: nat = if 2 * r >= d {
            1
        } else {
            0
        };
        assert(2 * m == (2 * q + b) * d + (2 * r - b * d)) by (nonlinear_arith)
            requires
                m == d * q + r,
        ;
        lemma_fundamental_div_mod_converse(
            (2 * m) as int,
            d as int,
            (2 * q + b) as int,
            2 * r - b * d,
        );
        let u = ulp(q);
        lemma_ulp_bounds(q);
        assert((2 * q + b) / 2 == q);
        assert(ulp(2 * q + b) == 2 * u);
        assert(d * u > 0) by (nonlinear_arith)
            requires
                d > 0,
                u > 0,
        ;
        lemma_half_even_scales(m, d * u, 2);
        assert(d * (2 * u) == (d * u) * 2) by (nonlinear_arith);
        let h = half_even(m, d * u);
        assert(h * (2 * u) == 2 * (h * u)) by (nonlinear_arith);
        assert((h * u) * 2 == 2 * (h * u));
        assert(quotient(n, d) * (2 * pow2(j)) == 2 * (quotient(n, d) * pow2(j)))
            by (nonlinear_arith);
    }
}

/// A quotient of at most a power of two stays so when it is rounded.
pub proof fn lemma_quotient_at_most(n: nat, d: nat, k: nat)
    requires
        d > 0,
        n <= d * pow2(k),
    ensures
        quotient(n, d) <= pow2(k),
{
    let q = n / d;
    let u = ulp(q);
    let j = lemma_ulp_is_power(q);
    lemma_ulp_bounds(q);
    lemma_fundamental_div_mod(n as int, d as int);
    lemma_pow2_pos(k);
    let p = pow2(k);
    assert(q <= p) by (nonlinear_arith)
        requires
            n == d * q + n % d,
            n % d >= 0,
            n <= d * p,
            d > 0,
    ;
    lemma2_to64();
    if j > k {
        lemma_pow2_strictly_increases(k, j);
        assert(u <= q);
    }
    lemma_pow2_adds((k - j) as nat, j);
    let c = pow2((k - j) as nat);
    assert(d * (c * u) == c * (d * u)) by (nonlinear_arith);
    assert(d * u > 0) by (nonlinear_arith)
        requires
            d > 0,
            u > 0,
    ;
    lemma_half_even_monotone(n, c * (d * u), d * u);
    lemma_half_even_exact(c, d * u);
    assert(half_even(n, d * u) * u <= c * u) by (nonlinear_arith)
        requires
            half_even(n, d * u) <= c,
    ;
}

/// Rounding a little above 1, where 1 is `pow2(scale)`.
pub proof fn lemma_nearest_above_one(scale: nat, p: nat)
    requires
        scale >= 53,
        p < pow2(scale),
    ensures
        nearest(pow2(scale) + p) == (ONE + 2 * half_even(p, pow2((scale - 52) as nat))) * pow2(
            (scale - 53) as nat,
        ),
{
    let u = pow2((scale - 52) as nat);
    let t = pow2((scale - 53) as nat);
    lemma2_to64_rest();
    lemma_pow2_pos((scale - 53) as nat);
    lemma_pow2_unfold((scale - 52) as nat);
    lemma_pow2_unfold(scale + 1);
    lemma_pow2_adds(52, (scale - 52) as nat);
    assert(pow2(52) == HALF);
    lemma_ulp_of_range(pow2(scale) + p, (scale - 52) as nat);
    lemma_half_even_plus(HALF as nat, p, u);
    let h = half_even(p, u);
    assert((HALF + h) * (2 * t) == (ONE + 2 * h) * t) by (nonlinear_arith)
        requires
            2 * HALF == ONE,
    ;
}

/// Rounding a little below 1, where 1 is `pow2(scale)`.
pub proof fn lemma_nearest_below_one(scale: nat, p: nat)
    requires
        scale >= 53,
        p <= pow2((scale - 1) as nat),
    ensures
        half_even(p, pow2((scale - 53) as nat)) <= ONE,
        nearest((pow2(scale) - p) as nat) == (ONE - half_even(p, pow2((scale - 53) as nat)))
            * pow2((scale - 53) as nat),
{
    let t = pow2((scale - 53) as nat);
    lemma2_to64_rest();
    lemma_pow2_pos((scale - 53) as nat);
    lemma_pow2_pos((scale - 1) as nat);
    lemma_pow2_unfold(scale);
    lemma_pow2_adds(53, (scale - 53) as nat);
    assert(pow2(53) == ONE);
    assert(pow2(scale) == ONE * t);
    lemma_half_even_minus(ONE as nat, p, t);
    if p == 0 {
        lemma_half_even_exact(0, t);
        lemma_nearest_small(1);
        lemma_nearest_scales(1, scale);
    } else {
        lemma_ulp_of_range((pow2(scale) - p) as nat, (scale - 53) as nat);
    }
}

/// `n / d` rounded to the nearest whole number, ties to even.
pub fn round_half_even(n: u128, d: u128) -> (r: u128)
    requires
        d > 0,
        n < u128::MAX,
    ensures
        r as nat == half_even(n as nat, d as nat),
{
    let q: u128 = n / d;
    let rest: u128 = n % d;
    proof {
        lemma_fundamental_div_mod(n as int, d as int);
        assert(q <= n) by (nonlinear_arith)
            requires
                n == d * q + rest,
                d > 0,
                rest >= 0,
                q >= 0,
        ;
    }
    if rest < d - rest || (rest == d - rest && q % 2 == 0) {
        q
    } else {
        q + 1
    }
}

/// `x` rounded to 53 significant bits.
pub fn round_nearest(x: u128) -> (r: u128)
    requires
        x < 0x100_0000_0000_0000_0000_0000_0000_0000,
    ensures
        r as nat == nearest(x as nat),
{
    let mut unit: u128 = 1;
    let mut high: u128 = x;
    while high >= ONE as u128
        invariant
            x < 0x100_0000_0000_0000_0000_0000_0000_0000,
            unit >= 1,
            unit * high <= x,
            ulp(x as nat) == unit * ulp(high as nat),
        decreases high,
    {
        proof {
            let u = ulp((high / 2) as nat);
            assert(2 * unit <= unit * high) by (nonlinear_arith)
                requires
                    high >= 2,
                    unit >= 1,
            ;
            assert((2 * unit) * (high / 2) <= unit * high) by (nonlinear_arith)
                requires
                    2 * (high / 2) <= high,
                    unit >= 1,
            ;
            assert(unit * (2 * u) == (2 * unit) * u) by (nonlinear_arith);
        }
        unit = 2 * unit;
        high = high / 2;
    }
    let q: u128 = round_half_even(x, unit);
    proof {
        assert(ulp(high as nat) == 1);
        assert(unit * 1 == unit);
        assert(ulp(x as nat) == unit);
        lemma_ulp_bounds(x as nat);
        lemma_half_even_monotone(x as nat, (ONE * unit) as nat, unit as nat);
        lemma_half_even_exact(ONE as nat, unit as nat);
        assert(q * unit <= ONE * unit) by (nonlinear_arith)
            requires
                q <= ONE,
        ;
        assert(unit <= 1 || HALF * unit <= x);
    }
    q * unit
}

/// Two to the power of `k`.
pub fn power_of_two(k: u32) -> (r: u128)
    requires
        k <= 120,
    ensures
        r as nat == pow2(k as nat),
{
    let mut r: u128 = 1;
    let mut i: u32 = 0;
    proof {
        lemma2_to64();
        lemma_pow2_adds(60, 60);
        lemma2_to64_rest();
    }
    while i < k
        invariant
            i <= k <= 120,
            r as nat == pow2(i as nat),
            pow2(120) == 0x100_0000_0000_0000_0000_0000_0000_0000,
        decreases k - i,
    {
        proof {
            lemma_pow2_unfold((i + 1) as nat);
            lemma_pow2_at_least((i + 1) as nat, 120);
        }
        r = 2 * r;
        i = i + 1;
    }
    r
}

/// A quotient with 53 significant bits: `mantissa` over two to the `shift`.
pub struct Ratio {
    pub mantissa: u64,
    pub shift: u32,
}

/// `n / d` rounded to 53 significant bits.
pub fn divide(n: u64, d: u64) -> (r: Ratio)
    requires
        0 < d < 0x1000_0000_0000_0000,
        0 < n < 8 * d,
    ensures
        r.shift <= 112,
        HALF <= r.mantissa <= ONE,
        quotient(n as nat * pow2(128), d as nat) == r.mantissa as nat * pow2(
            (128 - r.shift) as nat,
        ),
        r.mantissa <= 8 * pow2(r.shift as nat),
        n < d ==> r.shift >= 53 && r.mantissa <= pow2(r.shift as nat),
{
    let mut q: u64 = n / d;
    let mut rest: u64 = n % d;
    let mut shift: u32 = 0;
    proof {
        lemma2_to64();
        lemma_fundamental_div_mod(n as int, d as int);
        assert(n * 1 == q * d + rest) by (nonlinear_arith)
            requires
                n == d * q + rest,
        ;
        assert(q < 8) by (nonlinear_arith)
            requires
                n == d * q + rest,
                n < 8 * d,
                rest >= 0,
                d > 0,
        ;
    }
    while q < HALF
        invariant
            0 < d < 0x1000_0000_0000_0000,
            0 < n < 8 * d,
            rest < d,
            q < ONE,
            shift <= 112,
            n * pow2(shift as nat) == q * d + rest,
        decreases 112 - shift,
    {
        let ghost s = shift as nat;
        proof {
            lemma_pow2_unfold(s + 1);
            lemma2_to64_rest();
            lemma_pow2_adds(52, 60);
            lemma_pow2_pos(s);
            let p = pow2(s);
            assert(p <= n * p) by (nonlinear_arith)
                requires
                    n >= 1,
                    p > 0,
            ;
            assert(q * d + rest < HALF * 0x1000_0000_0000_0000) by (nonlinear_arith)
                requires
                    q < HALF,
                    rest < d,
                    d < 0x1000_0000_0000_0000,
                    q >= 0,
            ;
            if shift >= 112 {
                lemma_pow2_at_least(112, s);
            }
            assert(n * (2 * p) == 2 * (n * p)) by (nonlinear_arith);
        }
        if 2 * rest >= d {
            proof {
                assert(2 * (q * d + rest) == (2 * q + 1) * d + (2 * rest - d)) by (nonlinear_arith);
            }
            q = 2 * q + 1;
            rest = 2 * rest - d;
        } else {
            proof {
                assert(2 * (q * d + rest) == (2 * q) * d + 2 * rest) by (nonlinear_arith);
            }
            q = 2 * q;
            rest = 2 * rest;
        }
        shift = shift + 1;
    }
    let up: bool = !(rest < d - rest || (rest == d - rest && q % 2 == 0));
    let mantissa: u64 = if up {
        q + 1
    } else {
        q
    };
    proof {
        let s = shift as nat;
        let scaled: nat = n as nat * pow2(s);
        let dn: nat = d as nat;
        assert(scaled == q as nat * dn + rest as nat);
        lemma_half_even(scaled, dn, q as nat, rest as nat);
        lemma_fundamental_div_mod_converse(scaled as int, d as int, q as int, rest as int);
        assert(ulp(scaled / dn) == 1);
        assert(dn * 1 == dn);
        assert(quotient(scaled, dn) == mantissa);
        lemma_quotient_scales(scaled, dn, (128 - s) as nat);
        lemma_pow2_adds(s, (128 - s) as nat);
        let a = pow2(s);
        let b = pow2((128 - s) as nat);
        assert(n * (a * b) == (n * a) * b) by (nonlinear_arith);
        lemma_pow2_pos(s);
        assert(q < 8 * a) by (nonlinear_arith)
            requires
                n * a == q * d + rest,
                n < 8 * d,
                a > 0,
                d > 0,
                rest >= 0,
        ;
        if n < d {
            assert(q < a) by (nonlinear_arith)
                requires
                    n * a == q * d + rest,
                    n < d,
                    a > 0,
                    d > 0,
                    rest >= 0,
            ;
            lemma2_to64_rest();
            if shift < 53 {
                lemma_pow2_at_least(s, 52);
            }
        }
    }
    Ratio { mantissa, shift }
}

/// Ticks of `1 - n / d`, the quotient and the difference each rounded.
pub open spec fn one_minus(n: nat, d: nat) -> nat {
    nearest((pow2(128) - quotient(n * pow2(128), d)) as nat) / pow2(75)
}

/// Ticks of `1 - n / d`, the quotient and the difference each rounded.
pub fn one_minus_ratio(n: u64, d: u64) -> (ticks: u64)
    requires
        n < d < 0x1000_0000_0000_0000,
    ensures
        ticks as nat == one_minus(n as nat, d as nat),
        ticks <= ONE,
{
    proof {
        lemma_pow2_pos(75);
        lemma2_to64_rest();
        assert(pow2(53) == ONE);
    }
    if n == 0 {
        proof {
            lemma_ulp_bounds(0);
            lemma_half_even_exact(0, d as nat);
            assert(0nat / (d as nat) == 0);
            assert(d as nat * 1 == d as nat);
            assert(quotient(0, d as nat) == 0);
            lemma_nearest_small(1);
            lemma_nearest_scales(1, 128);
            lemma_pow2_adds(53, 75);
            lemma_exact_division(ONE as nat, 75);
        }
        return ONE;
    }
    let ratio: Ratio = divide(n, d);
    let unit: u128 = power_of_two(ratio.shift - 53);
    proof {
        lemma_pow2_pos((ratio.shift - 53) as nat);
    }
    let part: u128 = round_half_even(ratio.mantissa as u128, unit);
    proof {
        let s = ratio.shift as nat;
        let m = ratio.mantissa as nat;
        let k = pow2((128 - s) as nat);
        let e = quotient(n as nat * pow2(128), d as nat);
        lemma_pow2_pos((128 - s) as nat);
        lemma_pow2_pos((s - 53) as nat);
        lemma_pow2_adds((s - 53) as nat, (128 - s) as nat);
        lemma_pow2_adds(53, 75);
        lemma_half_even_scales(m, pow2((s - 53) as nat), k);
        assert(half_even(e, pow2(75)) == part);
        lemma_pow2_unfold(128);
        if e <= pow2(127) {
            lemma_nearest_below_one(128, e);
        } else {
            if s > 53 {
                lemma_pow2_at_least((128 - s) as nat, 74);
                lemma_pow2_adds(53, 74);
                assert(m * k <= ONE * pow2(74)) by (nonlinear_arith)
                    requires
                        m <= ONE,
                        k <= pow2(74),
                ;
            }
            assert(s == 53);
            assert(e == m * pow2(75));
            lemma2_to64();
            lemma_half_even_exact(m, 1);
            let x: nat = (ONE - m) as nat;
            let t = pow2(75);
            assert(ONE * t - m * t == x * t) by (nonlinear_arith)
                requires
                    x == ONE - m,
            ;
            lemma_nearest_small(x);
            lemma_nearest_scales(x, 75);
        }
        lemma_exact_division((ONE - part) as nat, 75);
    }
    ONE - part as u64
}

/// Division undoes multiplication by a power of two.
pub proof fn lemma_exact_division(x: nat, k: nat)
    ensures
        (x * pow2(k)) / pow2(k) == x,
{
    lemma_pow2_pos(k);
    lemma_fundamental_div_mod_converse((x * pow2(k)) as int, pow2(k) as int, x as int, 0);
}

} // verus!
