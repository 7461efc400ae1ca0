//! How close rounded results are to exact ones: rounding is to the nearest number, and what is
//! worked out in several steps stays within a few parts in sixteen million of what it stands
//! for.

use crate::order::{
    lemma_product_of_amounts, lemma_quotient_of_amount, lemma_round_bound, lemma_round_exact,
    lemma_round_monotone, lemma_round_zero, lemma_sum_of_amounts,
};
use crate::rounding::{
    half_even, lemma_half_even_bounds, lemma_pow2_monotone, lemma_round_same_ratio,
    lemma_scale_fits, round, scale, BINADE, INFINITE,
};
use crate::single::{lemma_steps_increase, nearest, steps, Single};
use vstd::arithmetic::div_mod::{lemma_fundamental_div_mod, lemma_fundamental_div_mod_converse};
use vstd::arithmetic::power2::{
    lemma2_to64, lemma2_to64_rest, lemma_pow2_adds, lemma_pow2_pos, pow2,
};
use vstd::prelude::*;

verus! {

/// The distance between two numbers.
pub open spec fn gap(a: int, b: int) -> int {
    if a < b {
        b - a
    } else {
        a - b
    }
}

/// A number rounded to an integer is off by at most one half.
pub proof fn lemma_half_even_error(n: nat, d: nat)
    requires
        d > 0,
    ensures
        2 * gap((half_even(n, d) * d) as int, n as int) <= d,
{
    let (q, r): (int, int) = (n as int / d as int, n as int % d as int);
    lemma_fundamental_div_mod(n as int, d as int);
    assert((q + 1) * d == q * d + d) by (nonlinear_arith);
    assert(d * q == q * d) by (nonlinear_arith);
}

/// No integer is closer to a number than the one that it rounds to.
proof fn lemma_half_even_nearest(n: nat, d: nat, k: nat)
    requires
        d > 0,
    ensures
        gap((half_even(n, d) * d) as int, n as int) <= gap((k * d) as int, n as int),
{
    let q: nat = half_even(n, d);
    lemma_half_even_error(n, d);
    if k < q {
        assert(k * d + d <= q * d) by (nonlinear_arith)
            requires
                k + 1 <= q,
        ;
    } else if k > q {
        assert(q * d + d <= k * d) by (nonlinear_arith)
            requires
                q + 1 <= k,
        ;
    }
}

/// What a ratio rounds to, as a multiple of the distance between neighbouring magnitudes.
proof fn lemma_round_grid(n: nat, d: nat) -> (t: nat)
    requires
        d > 0,
        round(n, d) < INFINITE,
    ensures
        t == scale(n, d, 0),
        d * pow2(t) > 0,
        steps(round(n, d)) == half_even(n, d * pow2(t)) * pow2(t),
        n < d * pow2(24 + t),
        t > 0 ==> n >= d * pow2((23 + t) as nat),
{
    reveal(round);
    lemma2_to64();
    let t: nat = scale(n, d, 0);
    lemma_scale_fits(n, d, 0);
    lemma_pow2_pos(t);
    let p: nat = pow2(t);
    assert(d * p > 0) by (nonlinear_arith)
        requires
            d > 0,
            p > 0,
    ;
    lemma_pow2_adds(24, t);
    assert(d * (0x100_0000 * p) == 0x100_0000 * (d * p)) by (nonlinear_arith);
    let q: nat = half_even(n, d * p);
    lemma_half_even_bounds(n, d * p, 0x100_0000);
    if t > 0 {
        lemma_pow2_adds(23, t);
        assert(d * (0x80_0000 * p) == 0x80_0000 * (d * p)) by (nonlinear_arith);
        lemma_half_even_bounds(n, d * p, 0x80_0000);
    }
    let m: nat = t * BINADE as nat + q;
    assert(round(n, d) == m);
    if q < BINADE {
        assert(t == 0);
        assert(q * pow2(0) == q);
    } else if q < 0x100_0000 {
        lemma_fundamental_div_mod_converse(m as int, BINADE as int, t as int + 1, q - BINADE);
    } else {
        lemma_fundamental_div_mod_converse(m as int, BINADE as int, t as int + 2, 0);
        lemma_pow2_adds(1, t);
        assert(BINADE * (2 * p) == 0x100_0000 * p) by (nonlinear_arith);
    }
    t
}

/// Rounding is to the nearest number: no magnitude is closer to a ratio than the one that it
/// rounds to.
pub proof fn rounding_is_to_nearest(n: nat, d: nat, other: nat)
    requires
        d > 0,
        round(n, d) < INFINITE,
    ensures
        gap((steps(round(n, d)) * d) as int, n as int) <= gap((steps(other) * d) as int, n as int),
{
    lemma2_to64();
    let t: nat = lemma_round_grid(n, d);
    let p: nat = pow2(t);
    let q: nat = half_even(n, d * p);
    assert(q * p * d == q * (d * p)) by (nonlinear_arith);
    let edge: nat = ((t + 1) * BINADE) as nat;
    if other >= edge {
        let e: nat = (other / BINADE as nat - 1) as nat;
        lemma_fundamental_div_mod(other as int, BINADE as int);
        assert(e >= t) by (nonlinear_arith)
            requires
                other == BINADE * (e + 1) + other % BINADE as nat,
                other % (BINADE as nat) < BINADE,
                other >= (t + 1) * BINADE,
        ;
        let sig: nat = BINADE as nat + other % BINADE as nat;
        lemma_pow2_adds(t, (e - t) as nat);
        let k: nat = sig * pow2((e - t) as nat);
        lemma_half_even_nearest(n, d * p, k);
        let r: nat = pow2((e - t) as nat);
        assert(sig * (p * r) * d == sig * r * (d * p)) by (nonlinear_arith);
    } else if t == 0 {
        assert(steps(other) == other);
        lemma_half_even_nearest(n, d * p, other);
        assert(d * pow2(0) == d);
        assert(other * pow2(0) == other);
    } else {
        lemma_steps_increase(other, edge);
        lemma_fundamental_div_mod_converse(edge as int, BINADE as int, t as int + 1, 0);
        assert(steps(edge) == BINADE as nat * p);
        lemma_pow2_adds(23, t);
        lemma_half_even_nearest(n, d * p, 0x80_0000);
        assert(0x80_0000 * (d * p) == d * (0x80_0000 * p)) by (nonlinear_arith);
        let s: nat = steps(other);
        assert(s * d <= (0x80_0000 * p) * d) by (nonlinear_arith)
            requires
                s <= 0x80_0000 * p,
        ;
        assert((0x80_0000 * p) * d == d * (0x80_0000 * p)) by (nonlinear_arith);
    }
}

/// Where two integers are equally close to a number, it rounds to the even one.
proof fn lemma_half_even_tie(n: nat, d: nat, k: nat)
    requires
        d > 0,
        k != half_even(n, d),
        gap((half_even(n, d) * d) as int, n as int) == gap((k * d) as int, n as int),
    ensures
        half_even(n, d) % 2 == 0,
{
    let h: nat = half_even(n, d);
    let (q, r): (int, int) = (n as int / d as int, n as int % d as int);
    lemma_fundamental_div_mod(n as int, d as int);
    assert(d * q == q * d) by (nonlinear_arith);
    assert((q + 1) * d == q * d + d) by (nonlinear_arith);
    lemma_half_even_error(n, d);
    if 2 * r != d {
        if k < h {
            assert(k * d + d <= h * d) by (nonlinear_arith)
                requires
                    k + 1 <= h,
            ;
        } else {
            assert(h * d + d <= k * d) by (nonlinear_arith)
                requires
                    h + 1 <= k,
            ;
        }
        assert(false);
    }
}

/// Halfway cases round to even: where another magnitude is just as close to a ratio as the one
/// that it rounds to, that one is even.
pub proof fn rounding_ties_go_to_even(n: nat, d: nat, other: nat)
    requires
        d > 0,
        round(n, d) < INFINITE,
        other != round(n, d),
        gap((steps(round(n, d)) * d) as int, n as int) == gap((steps(other) * d) as int, n as int),
    ensures
        round(n, d) % 2 == 0,
{
    lemma2_to64();
    let t: nat = lemma_round_grid(n, d);
    let m: nat = round(n, d);
    let p: nat = pow2(t);
    let q: nat = half_even(n, d * p);
    assert(m == t * BINADE as nat + q) by {
        reveal(round);
    }
    assert(q * p * d == q * (d * p)) by (nonlinear_arith);
    let edge: nat = ((t + 1) * BINADE) as nat;
    if other < m {
        lemma_steps_increase(other, m);
    } else {
        lemma_steps_increase(m, other);
    }
    assert((t * BINADE as nat) % 2 == 0) by (nonlinear_arith);
    if other >= edge {
        let e: nat = (other / BINADE as nat - 1) as nat;
        lemma_fundamental_div_mod(other as int, BINADE as int);
        assert(e >= t) by (nonlinear_arith)
            requires
                other == BINADE * (e + 1) + other % BINADE as nat,
                other % (BINADE as nat) < BINADE,
                other >= (t + 1) * BINADE,
        ;
        let sig: nat = BINADE as nat + other % BINADE as nat;
        lemma_pow2_adds(t, (e - t) as nat);
        let r: nat = pow2((e - t) as nat);
        let k: nat = sig * r;
        assert(sig * (p * r) == k * p) by (nonlinear_arith)
            requires
                k == sig * r,
        ;
        assert(k * p * d == k * (d * p)) by (nonlinear_arith);
        lemma_half_even_tie(n, d * p, k);
    } else if t == 0 {
        assert(steps(other) == other);
        assert(d * pow2(0) == d);
        assert(other * pow2(0) == other);
        assert(q * pow2(0) == q);
        lemma_half_even_tie(n, d * p, other);
    } else {
        rounding_is_to_nearest(n, d, edge);
        lemma_steps_increase(other, edge);
        lemma_fundamental_div_mod_converse(edge as int, BINADE as int, t as int + 1, 0);
        lemma_pow2_adds(23, t);
        let (a, b): (nat, nat) = (steps(other), 0x80_0000 * p);
        assert(steps(edge) == b);
        assert(a * d < b * d) by (nonlinear_arith)
            requires
                a < b,
                d > 0,
        ;
        assert(b * d == d * (0x80_0000 * p)) by (nonlinear_arith)
            requires
                b == 0x80_0000 * p,
        ;
        assert(false);
    }
}

/// Past the largest finite number by half of the last distance between neighbours, and from there
/// on, results are infinite; below they are not.
pub proof fn overflow_begins_past_the_largest(n: nat, d: nat)
    requires
        d > 0,
    ensures
        round(n, d) == INFINITE <==> n >= d * 0x1ff_ffff * pow2(252),
{
    reveal(round);
    lemma2_to64();
    let t: nat = scale(n, d, 0);
    lemma_scale_fits(n, d, 0);
    let p: nat = pow2(t);
    lemma_pow2_pos(t);
    assert(d * p > 0) by (nonlinear_arith)
        requires
            d > 0,
            p > 0,
    ;
    lemma_pow2_adds(24, t);
    assert(d * (0x100_0000 * p) == 0x100_0000 * (d * p)) by (nonlinear_arith);
    lemma_half_even_bounds(n, d * p, 0x100_0000);
    let h: nat = pow2(252);
    let edge: nat = d * 0x1ff_ffff * h;
    if t <= 252 {
        lemma_pow2_monotone(24 + t, 276);
        lemma_pow2_adds(24, 252);
        let (x, y): (nat, nat) = (pow2(24 + t), pow2(276));
        assert(d * x <= d * y) by (nonlinear_arith)
            requires
                x <= y,
        ;
        assert(d * (0x100_0000 * h) < d * 0x1ff_ffff * h) by (nonlinear_arith)
            requires
                d > 0,
                h > 0,
        ;
    } else if t == 253 {
        lemma_pow2_adds(252, 1);
        lemma_pow2_adds(23, 253);
        let dp: nat = d * p;
        let dh: nat = d * h;
        assert(dp == 2 * dh) by (nonlinear_arith)
            requires
                dp == d * p,
                dh == d * h,
                p == h * 2,
        ;
        assert(edge == 0x1ff_ffff * dh) by (nonlinear_arith)
            requires
                edge == d * 0x1ff_ffff * h,
                dh == d * h,
        ;
        let (q, r): (int, int) = (n as int / dp as int, n as int % dp as int);
        lemma_fundamental_div_mod(n as int, dp as int);
        assert(q <= 0xff_ffff) by (nonlinear_arith)
            requires
                n == dp * q + r,
                r >= 0,
                n < 0x100_0000 * dp,
                dp > 0,
        ;
        if q == 0xff_ffff {
            assert(dp * 0xff_ffff == 0xff_ffff * dp);
        } else {
            assert(dp * q + dp <= 0xff_ffff * dp) by (nonlinear_arith)
                requires
                    q + 1 <= 0xff_ffff,
                    dp > 0,
            ;
        }
    } else {
        lemma_pow2_monotone(277, (23 + t) as nat);
        lemma_pow2_adds(25, 252);
        lemma_pow2_adds(23, t);
        assert(d * (0x80_0000 * p) == 0x80_0000 * (d * p)) by (nonlinear_arith);
        lemma_half_even_bounds(n, d * p, 0x80_0000);
        let (x, y): (nat, nat) = (pow2((23 + t) as nat), pow2(277));
        assert(d * y <= d * x) by (nonlinear_arith)
            requires
                y <= x,
        ;
        assert(d * 0x1ff_ffff * h <= d * (0x200_0000 * h)) by (nonlinear_arith);
    }
}

/// A ratio within the range of normal numbers rounds to one that is off by at most one part in
/// `2^24`.
proof fn lemma_round_error(n: nat, d: nat)
    requires
        d > 0,
        n >= d * 0x80_0000,
        n < d * pow2(276),
    ensures
        round(n, d) < INFINITE,
        0x100_0000 * gap((steps(round(n, d)) * d) as int, n as int) <= n,
{
    lemma2_to64();
    assert(round(n, d) < INFINITE) by {
        reveal(round);
        let t: nat = scale(n, d, 0);
        lemma_scale_fits(n, d, 0);
        lemma_pow2_pos(t);
        let p: nat = pow2(t);
        assert(d * p > 0) by (nonlinear_arith)
            requires
                d > 0,
                p > 0,
        ;
        if t > 252 {
            lemma_pow2_monotone(276, (23 + t) as nat);
            let (a, b): (nat, nat) = (pow2(276), pow2((23 + t) as nat));
            assert(d * a <= d * b) by (nonlinear_arith)
                requires
                    a <= b,
            ;
        }
        lemma_pow2_adds(24, t);
        assert(d * (0x100_0000 * p) == 0x100_0000 * (d * p)) by (nonlinear_arith);
        lemma_half_even_bounds(n, d * p, 0x100_0000);
    }
    let t: nat = lemma_round_grid(n, d);
    let p: nat = pow2(t);
    let q: nat = half_even(n, d * p);
    lemma_half_even_error(n, d * p);
    assert(q * p * d == q * (d * p)) by (nonlinear_arith);
    if t > 0 {
        lemma_pow2_adds(23, t);
        assert(d * (0x80_0000 * p) == 0x80_0000 * (d * p)) by (nonlinear_arith);
    } else {
        assert(d * pow2(0) == d);
        assert(d * 0x80_0000 == 0x80_0000 * d);
    }
}

/// Whether `v` is `n / d` up to `k` parts in `2^24`.
pub open spec fn near(v: int, n: int, d: int, k: int) -> bool {
    (0x100_0000 - k) * n <= 0x100_0000 * (v * d) <= (0x100_0000 + k) * n
}

/// The value of one, in steps.
pub open spec fn unit() -> nat {
    pow2(149)
}

pub proof fn lemma_unit()
    ensures
        unit() == 0x1_0000_0000_0000_0000int * 0x1_0000_0000_0000_0000int * 0x20_0000,
        pow2(276) == unit() * 0x8000_0000_0000_0000_0000_0000_0000_0000,
{
    lemma2_to64();
    lemma2_to64_rest();
    lemma_pow2_adds(64, 64);
    lemma_pow2_adds(128, 21);
    lemma_pow2_adds(64, 63);
    lemma_pow2_adds(149, 127);
}

/// A common factor can be left out of an inequality.
proof fn lemma_cancel(a: int, b: int, c: int)
    requires
        c > 0,
        a * c <= b * c,
    ensures
        a <= b,
{
    assert(a <= b) by (nonlinear_arith)
        requires
            c > 0,
            a * c <= b * c,
    ;
}

/// Rounding a ratio that is near to another adds its own error.
proof fn lemma_near_round(a: nat, b: nat, n: int, d: int, k: int)
    requires
        b > 0,
        d > 0,
        n >= 0,
        0 <= k <= 1000,
        a >= b * 0x80_0000,
        a < b * pow2(276),
        near(a as int, n * b, d, k),
    ensures
        round(a, b) < INFINITE,
        near(steps(round(a, b)) as int, n, d, k + 2),
        a <= 2 * (steps(round(a, b)) * b),
        steps(round(a, b)) * b <= 2 * a,
{
    lemma_round_error(a, b);
    let m: int = steps(round(a, b)) as int;
    let t: int = 0x100_0000;
    let (mb, ad, nb, md): (int, int, int, int) = (m * b, a * d, n * b, m * d);
    assert(mb * d == md * b) by (nonlinear_arith)
        requires
            mb == m * b,
            md == m * d,
    ;
    assert(t * mb <= (t + 1) * a && t * mb >= (t - 1) * a) by (nonlinear_arith)
        requires
            t * gap(mb, a as int) <= a,
            t == 0x100_0000,
    ;
    assert(t * (mb * d) <= (t + 1) * ad && t * (mb * d) >= (t - 1) * ad) by (nonlinear_arith)
        requires
            t * mb <= (t + 1) * a,
            t * mb >= (t - 1) * a,
            ad == a * d,
            d > 0,
    ;
    assert(t * t * (md * b) <= (t + 1) * ((t + k) * nb)) by (nonlinear_arith)
        requires
            mb * d == md * b,
            t * (mb * d) <= (t + 1) * ad,
            t * ad <= (t + k) * nb,
            t == 0x100_0000,
    ;
    assert(t * t * (md * b) >= (t - 1) * ((t - k) * nb)) by (nonlinear_arith)
        requires
            mb * d == md * b,
            t * (mb * d) >= (t - 1) * ad,
            t * ad >= (t - k) * nb,
            t == 0x100_0000,
    ;
    assert(0 <= nb) by (nonlinear_arith)
        requires
            nb == n * b,
            n >= 0,
            b > 0,
    ;
    assert((t + 1) * ((t + k) * nb) <= t * ((t + k + 2) * nb)) by (nonlinear_arith)
        requires
            nb >= 0,
            0 <= k <= 1000,
            t == 0x100_0000,
    ;
    assert((t - 1) * ((t - k) * nb) >= t * ((t - k - 2) * nb)) by (nonlinear_arith)
        requires
            nb >= 0,
            0 <= k <= 1000,
            t == 0x100_0000,
    ;
    assert(t * t * (md * b) == (t * md) * (t * b)) by (nonlinear_arith);
    assert(t * ((t + k + 2) * nb) == ((t + k + 2) * n) * (t * b)) by (nonlinear_arith)
        requires
            nb == n * b,
    ;
    assert(t * ((t - k - 2) * nb) == ((t - k - 2) * n) * (t * b)) by (nonlinear_arith)
        requires
            nb == n * b,
    ;
    lemma_cancel(t * md, (t + k + 2) * n, t * b);
    lemma_cancel((t - k - 2) * n, t * md, t * b);
}

/// What is near to two ratios is, multiplied, near to their product.
proof fn lemma_near_times(
    x: int,
    n: int,
    d: int,
    k: int,
    y: int,
    m: int,
    e: int,
    l: int,
)
    requires
        near(x, n, d, k),
        near(y, m, e, l),
        x >= 0,
        y >= 0,
        n >= 0,
        m >= 0,
        d > 0,
        e > 0,
        0 <= k <= 1000,
        0 <= l <= 1000,
    ensures
        near(x * y, n * m, d * e, k + l + 1),
{
    let t: int = 0x100_0000;
    let (p, q, r): (int, int, int) = (x * d, y * e, n * m);
    assert((x * y) * (d * e) == p * q) by (nonlinear_arith)
        requires
            p == x * d,
            q == y * e,
    ;
    assert(0 <= p && 0 <= q && 0 <= r) by (nonlinear_arith)
        requires
            p == x * d,
            q == y * e,
            r == n * m,
            x >= 0,
            y >= 0,
            n >= 0,
            m >= 0,
            d > 0,
            e > 0,
    ;
    assert((t * p) * (t * q) <= ((t + k) * n) * ((t + l) * m)) by (nonlinear_arith)
        requires
            0 <= t * p <= (t + k) * n,
            0 <= t * q <= (t + l) * m,
    ;
    assert((t * p) * (t * q) >= ((t - k) * n) * ((t - l) * m)) by (nonlinear_arith)
        requires
            0 <= (t - k) * n <= t * p,
            0 <= (t - l) * m <= t * q,
    ;
    assert((t * p) * (t * q) == (t * (p * q)) * t) by (nonlinear_arith);
    assert(((t + k) * n) * ((t + l) * m) <= ((t + (k + l + 1)) * r) * t) by (nonlinear_arith)
        requires
            r == n * m,
            r >= 0,
            0 <= k <= 1000,
            0 <= l <= 1000,
            t == 0x100_0000,
    {
        assert(((t + k) * n) * ((t + l) * m) == ((t + k) * (t + l)) * r);
        assert((t + k) * (t + l) <= (t + (k + l + 1)) * t);
        assert(((t + k) * (t + l)) * r <= ((t + (k + l + 1)) * t) * r);
        assert(((t + (k + l + 1)) * t) * r == ((t + (k + l + 1)) * r) * t);
    }
    assert(((t - k) * n) * ((t - l) * m) >= ((t - (k + l + 1)) * r) * t) by (nonlinear_arith)
        requires
            r == n * m,
            r >= 0,
            0 <= k <= 1000,
            0 <= l <= 1000,
            t == 0x100_0000,
    {
        assert(((t - k) * n) * ((t - l) * m) == ((t - k) * (t - l)) * r);
        assert((t - k) * (t - l) >= (t - (k + l + 1)) * t);
        assert(((t - k) * (t - l)) * r >= ((t - (k + l + 1)) * t) * r);
        assert(((t - (k + l + 1)) * t) * r == ((t - (k + l + 1)) * r) * t);
    }
    lemma_cancel(t * (p * q), (t + (k + l + 1)) * r, t);
    lemma_cancel((t - (k + l + 1)) * r, t * (p * q), t);
}

/// A common factor can be left out of a ratio.
pub proof fn lemma_near_cancel(v: int, n: int, d: int, c: int, k: int)
    requires
        c > 0,
        near(v, n * c, d * c, k),
    ensures
        near(v, n, d, k),
{
    let t: int = 0x100_0000;
    assert(t * (v * (d * c)) == (t * (v * d)) * c) by (nonlinear_arith);
    assert((t - k) * (n * c) == ((t - k) * n) * c) by (nonlinear_arith);
    assert((t + k) * (n * c) == ((t + k) * n) * c) by (nonlinear_arith);
    lemma_cancel((t - k) * n, t * (v * d), c);
    lemma_cancel(t * (v * d), (t + k) * n, c);
}

/// A common factor can be put into a ratio.
pub proof fn lemma_near_expand(v: int, n: int, d: int, c: int, k: int)
    requires
        c > 0,
        near(v, n, d, k),
    ensures
        near(v, n * c, d * c, k),
{
    let t: int = 0x100_0000;
    let w: int = v * d;
    assert(t * (v * (d * c)) == (t * w) * c) by (nonlinear_arith)
        requires
            w == v * d,
    ;
    assert((t - k) * (n * c) == ((t - k) * n) * c) by (nonlinear_arith);
    assert((t + k) * (n * c) == ((t + k) * n) * c) by (nonlinear_arith);
    assert(((t - k) * n) * c <= (t * w) * c <= ((t + k) * n) * c) by (nonlinear_arith)
        requires
            c > 0,
            (t - k) * n <= t * w <= (t + k) * n,
    ;
}

/// A ratio that is near to another stays so where more error is granted.
proof fn lemma_near_weaken(v: int, n: int, d: int, k: int, l: int)
    requires
        near(v, n, d, k),
        n >= 0,
        k <= l,
    ensures
        near(v, n, d, l),
{
    assert((0x100_0000 - l) * n <= (0x100_0000 - k) * n && (0x100_0000 + k) * n <= (0x100_0000 + l)
        * n) by (nonlinear_arith)
        requires
            n >= 0,
            k <= l,
    ;
}

/// The value of an amount, in steps.
pub open spec fn amount(x: Single) -> int {
    steps(x.magnitude()) as int
}

/// Whether an amount is at least one in `lo` and at most `hi`.
pub open spec fn sized(x: Single, lo: int, hi: int) -> bool {
    &&& x.is_finite_amount()
    &&& 0 < lo
    &&& 0 < hi
    &&& amount(x) * lo >= unit()
    &&& amount(x) <= hi * unit()
}

/// The largest number that bounds are taken of: `2^120`.
pub open spec fn bound() -> int {
    0x1_0000_0000_0000_0000int * 0x100_0000_0000_0000
}

/// A sized amount is not zero.
pub proof fn lemma_sized(x: Single, lo: int, hi: int)
    requires
        sized(x, lo, hi),
    ensures
        amount(x) > 0,
        !x.is_zero(),
{
    lemma_unit();
    let v: int = amount(x);
    assert(v > 0) by (nonlinear_arith)
        requires
            v * lo >= unit(),
            unit() > 0,
            v >= 0,
            lo > 0,
    ;
}

/// The error of a product of two amounts.
pub proof fn lemma_near_product(
    x: Single,
    n: int,
    d: int,
    k: int,
    x0: int,
    x1: int,
    y: Single,
    m: int,
    e: int,
    l: int,
    y0: int,
    y1: int,
)
    requires
        sized(x, x0, x1),
        sized(y, y0, y1),
        x0 * y0 <= bound(),
        x1 * y1 <= bound(),
        near(amount(x), n, d, k),
        near(amount(y), m, e, l),
        n >= 0,
        m >= 0,
        d > 0,
        e > 0,
        0 <= k <= 100,
        0 <= l <= 100,
    ensures
        sized(x.product(y), 2 * (x0 * y0), 2 * (x1 * y1)),
        near(amount(x.product(y)), n * m, d * e * unit(), k + l + 3),
{
    lemma_unit();
    lemma_sized(x, x0, x1);
    lemma_sized(y, y0, y1);
    lemma_product_of_amounts(x, y);
    let (v, w, u): (int, int, int) = (amount(x), amount(y), unit() as int);
    let (p, q): (int, int) = (x0 * y0, x1 * y1);
    let a: int = v * w;
    assert(p > 0 && q > 0 && a > 0) by (nonlinear_arith)
        requires
            p == x0 * y0,
            q == x1 * y1,
            a == v * w,
            x0 > 0,
            y0 > 0,
            x1 > 0,
            y1 > 0,
            v > 0,
            w > 0,
    ;
    assert(a * p >= u * u) by (nonlinear_arith)
        requires
            a == v * w,
            p == x0 * y0,
            v * x0 >= u,
            w * y0 >= u,
            u > 0,
    {
        assert(a * p == (v * x0) * (w * y0));
    }
    assert(a <= q * u * u) by (nonlinear_arith)
        requires
            a == v * w,
            q == x1 * y1,
            0 < v <= x1 * u,
            0 < w <= y1 * u,
    {
        assert(q * u * u == (x1 * u) * (y1 * u));
    }
    assert((u * 0x80_0000) * p <= a * p) by (nonlinear_arith)
        requires
            a * p >= u * u,
            u >= p * 0x80_0000,
            u > 0,
    ;
    lemma_cancel(u * 0x80_0000, a, p);
    assert(q * u < u * 0x8000_0000_0000_0000_0000_0000_0000_0000) by (nonlinear_arith)
        requires
            q <= 0x1_0000_0000_0000_0000int * 0x100_0000_0000_0000,
            u > 0,
    ;
    assert(q * u * u < u * pow2(276)) by (nonlinear_arith)
        requires
            q * u < pow2(276),
            u > 0,
    ;
    lemma_near_times(v, n, d, k, w, m, e, l);
    lemma_near_expand(a, n * m, d * e, u, k + l + 1);
    assert(n * m >= 0 && d * e * u > 0) by (nonlinear_arith)
        requires
            n >= 0,
            m >= 0,
            d > 0,
            e > 0,
            u > 0,
    ;
    lemma_near_round(a as nat, u as nat, n * m, d * e * u, k + l + 1);
    let z: int = amount(x.product(y));
    assert((z * (2 * p)) * u >= u * u) by (nonlinear_arith)
        requires
            a <= 2 * (z * u),
            a * p >= u * u,
            p > 0,
    {
        assert((z * (2 * p)) * u == (2 * (z * u)) * p);
        assert((2 * (z * u)) * p >= a * p);
    }
    lemma_cancel(u, z * (2 * p), u);
    assert(z * u <= ((2 * q) * u) * u) by (nonlinear_arith)
        requires
            z * u <= 2 * a,
            a <= q * u * u,
    ;
    lemma_cancel(z, (2 * q) * u, u);
}

/// The error of a ratio of two amounts.
proof fn lemma_near_over(
    x: int,
    n: int,
    d: int,
    k: int,
    y: int,
    m: int,
    e: int,
    l: int,
    u: int,
)
    requires
        near(x, n, d, k),
        near(y, m, e, l),
        x >= 0,
        y > 0,
        n >= 0,
        m > 0,
        d > 0,
        e > 0,
        u > 0,
        0 <= k <= 100,
        0 <= l <= 100,
    ensures
        near(x * u, (u * n * e) * y, d * m, k + l + 1),
{
    let t: int = 0x100_0000;
    let (p, q, r): (int, int, int) = (x * d, y * e, u * n);
    let c: int = k + l + 1;
    assert((x * u) * (d * m) == (p * m) * u && (u * n * e) * y == r * q) by (nonlinear_arith)
        requires
            p == x * d,
            q == y * e,
            r == u * n,
    ;
    assert(r >= 0 && r * m >= 0) by (nonlinear_arith)
        requires
            r == u * n,
            u > 0,
            n >= 0,
            m > 0,
    ;
    assert(t * ((p * m) * u) <= (t + k) * (r * m)) by (nonlinear_arith)
        requires
            t * p <= (t + k) * n,
            r == u * n,
            m > 0,
            u > 0,
    {
        assert(t * ((p * m) * u) == (t * p) * (m * u));
        assert((t + k) * (r * m) == ((t + k) * n) * (m * u));
        assert(m * u > 0);
    }
    assert(t * ((p * m) * u) >= (t - k) * (r * m)) by (nonlinear_arith)
        requires
            t * p >= (t - k) * n,
            r == u * n,
            m > 0,
            u > 0,
    {
        assert(t * ((p * m) * u) == (t * p) * (m * u));
        assert((t - k) * (r * m) == ((t - k) * n) * (m * u));
        assert(m * u > 0);
    }
    assert((t - l) * (r * m) <= t * (r * q) <= (t + l) * (r * m)) by (nonlinear_arith)
        requires
            (t - l) * m <= t * q <= (t + l) * m,
            r >= 0,
    {
        assert((t - l) * (r * m) == ((t - l) * m) * r);
        assert((t + l) * (r * m) == ((t + l) * m) * r);
        assert(t * (r * q) == (t * q) * r);
    }
    let (g, h): (int, int) = (r * m, r * q);
    assert(((t + k) * g) * t <= ((t + c) * h) * t) by (nonlinear_arith)
        requires
            (t - l) * g <= t * h,
            g >= 0,
            c == k + l + 1,
            0 <= k <= 100,
            0 <= l <= 100,
            t == 0x100_0000,
    {
        assert(((t + k) * g) * t == ((t + k) * t) * g);
        assert((t + k) * t <= (t + c) * (t - l));
        assert(((t + k) * t) * g <= ((t + c) * (t - l)) * g);
        assert(((t + c) * (t - l)) * g == (t + c) * ((t - l) * g));
        assert((t + c) * ((t - l) * g) <= (t + c) * (t * h));
        assert((t + c) * (t * h) == ((t + c) * h) * t);
    }
    assert(((t - c) * h) * t <= ((t - k) * g) * t) by (nonlinear_arith)
        requires
            t * h <= (t + l) * g,
            g >= 0,
            c == k + l + 1,
            0 <= k <= 100,
            0 <= l <= 100,
            t == 0x100_0000,
    {
        assert(((t - k) * g) * t == ((t - k) * t) * g);
        assert((t - k) * t >= (t - c) * (t + l));
        assert(((t - k) * t) * g >= ((t - c) * (t + l)) * g);
        assert(((t - c) * (t + l)) * g == (t - c) * ((t + l) * g));
        assert((t - c) * ((t + l) * g) >= (t - c) * (t * h));
        assert((t - c) * (t * h) == ((t - c) * h) * t);
    }
    lemma_cancel((t + k) * g, (t + c) * h, t);
    lemma_cancel((t - c) * h, (t - k) * g, t);
}

/// The error of a quotient of two amounts.
pub proof fn lemma_near_quotient(
    x: Single,
    n: int,
    d: int,
    k: int,
    x0: int,
    x1: int,
    y: Single,
    m: int,
    e: int,
    l: int,
    y0: int,
    y1: int,
)
    requires
        sized(x, x0, x1),
        sized(y, y0, y1),
        x0 * y1 <= bound(),
        x1 * y0 <= bound(),
        near(amount(x), n, d, k),
        near(amount(y), m, e, l),
        n >= 0,
        m > 0,
        d > 0,
        e > 0,
        0 <= k <= 100,
        0 <= l <= 100,
    ensures
        sized(x.quotient(y), 2 * (x0 * y1), 2 * (x1 * y0)),
        near(amount(x.quotient(y)), unit() * n * e, d * m, k + l + 3),
{
    lemma_unit();
    lemma_sized(x, x0, x1);
    lemma_sized(y, y0, y1);
    lemma_quotient_of_amount(x, y);
    let (v, w, u): (int, int, int) = (amount(x), amount(y), unit() as int);
    let (p, q): (int, int) = (x0 * y1, x1 * y0);
    let a: int = v * u;
    assert(p > 0 && q > 0 && a > 0) by (nonlinear_arith)
        requires
            p == x0 * y1,
            q == x1 * y0,
            a == v * u,
            x0 > 0,
            y0 > 0,
            x1 > 0,
            y1 > 0,
            v > 0,
            u > 0,
    ;
    // the ratio is at least one in p, and at most q
    assert(a * p >= w * u) by (nonlinear_arith)
        requires
            a == v * u,
            p == x0 * y1,
            v * x0 >= u,
            w <= y1 * u,
            u > 0,
            y1 > 0,
    {
        assert(a * p == (v * x0) * (y1 * u));
        assert((v * x0) * (y1 * u) >= u * (y1 * u));
        assert(u * (y1 * u) >= u * w);
    }
    assert(a <= (w * q) * u) by (nonlinear_arith)
        requires
            a == v * u,
            q == x1 * y0,
            v <= x1 * u,
            w * y0 >= u,
            x1 > 0,
            u > 0,
    {
        assert((w * q) * u == (x1 * u) * (w * y0));
        assert((x1 * u) * (w * y0) >= (x1 * u) * u);
        assert((x1 * u) * u >= v * u);
    }
    assert((w * 0x80_0000) * p <= a * p) by (nonlinear_arith)
        requires
            a * p >= w * u,
            u >= p * 0x80_0000,
            w > 0,
    {
        assert(w * u >= w * (p * 0x80_0000));
    }
    lemma_cancel(w * 0x80_0000, a, p);
    assert(q * u < u * 0x8000_0000_0000_0000_0000_0000_0000_0000) by (nonlinear_arith)
        requires
            q <= 0x1_0000_0000_0000_0000int * 0x100_0000_0000_0000,
            u > 0,
    ;
    assert((w * q) * u < w * pow2(276)) by (nonlinear_arith)
        requires
            q * u < pow2(276),
            w > 0,
    ;
    lemma_near_over(v, n, d, k, w, m, e, l, u);
    assert(u * n * e >= 0 && d * m > 0) by (nonlinear_arith)
        requires
            n >= 0,
            m > 0,
            d > 0,
            e > 0,
            u > 0,
    ;
    lemma_near_round(a as nat, w as nat, u * n * e, d * m, k + l + 1);
    let z: int = amount(x.quotient(y));
    assert((z * (2 * p)) * w >= u * w) by (nonlinear_arith)
        requires
            a <= 2 * (z * w),
            a * p >= w * u,
            p > 0,
    {
        assert((z * (2 * p)) * w == (2 * (z * w)) * p);
        assert((2 * (z * w)) * p >= a * p);
    }
    lemma_cancel(u, z * (2 * p), w);
    assert(z * w <= ((2 * q) * u) * w) by (nonlinear_arith)
        requires
            z * w <= 2 * a,
            a <= (w * q) * u,
    ;
    lemma_cancel(z, (2 * q) * u, w);
}

/// The error of a sum of two amounts.
pub proof fn lemma_near_sum(x: Single, n: int, y: Single, m: int, d: int, k: int)
    requires
        x.is_finite_amount(),
        y.is_finite_amount(),
        near(amount(x), n, d, k),
        near(amount(y), m, d, k),
        amount(x) + amount(y) >= 0x80_0000,
        amount(x) + amount(y) < pow2(276),
        n >= 0,
        m >= 0,
        d > 0,
        0 <= k <= 100,
    ensures
        x.sum(y).is_finite_amount(),
        near(amount(x.sum(y)), n + m, d, k + 2),
        amount(x) + amount(y) <= 2 * amount(x.sum(y)),
        amount(x.sum(y)) <= 2 * (amount(x) + amount(y)),
{
    lemma_sum_of_amounts(x, y);
    let (v, w): (int, int) = (amount(x), amount(y));
    let t: int = 0x100_0000;
    assert((v + w) * d == v * d + w * d) by (nonlinear_arith);
    assert((t + k) * (n + m) == (t + k) * n + (t + k) * m) by (nonlinear_arith);
    assert((t - k) * (n + m) == (t - k) * n + (t - k) * m) by (nonlinear_arith);
    lemma_near_round((v + w) as nat, 1, n + m, d, k);
}

/// The error of an integer.
pub proof fn lemma_near_int(n: int)
    requires
        1 <= n <= 0x1_0000_0000_0000_0000,
    ensures
        sized(Single::of_int(n), 2, 2 * n),
        near(amount(Single::of_int(n)), n * unit(), 1, 2),
        !Single::of_int(n).negative(),
{
    lemma_unit();
    let u: int = unit() as int;
    let a: int = n * u;
    assert(a == n as nat * pow2(149));
    assert(u <= a <= 0x1_0000_0000_0000_0000 * u) by (nonlinear_arith)
        requires
            a == n * u,
            1 <= n <= 0x1_0000_0000_0000_0000,
            u > 0,
    ;
    lemma_near_round(a as nat, 1, a, 1, 0);
    let v: int = amount(Single::of_int(n));
    assert(v <= (2 * n) * u) by (nonlinear_arith)
        requires
            v <= 2 * a,
            a == n * u,
    ;
}

/// What a normal number stands for.
pub proof fn lemma_constant(bits: u32, sig: nat, e: nat)
    requires
        0x80_0000 <= sig < 0x100_0000,
        e < 254,
        bits == e * 0x80_0000 + sig,
    ensures
        (Single { bits }).is_finite_amount(),
        !(Single { bits }).negative(),
        amount(Single { bits }) == sig * pow2(e),
{
    let m: nat = (Single { bits }).magnitude();
    assert(m == bits);
    lemma_fundamental_div_mod_converse(
        m as int,
        BINADE as int,
        e as int + 1,
        sig as int - BINADE as int,
    );
}

/// A number in use that is an integer, or one half.
pub proof fn lemma_exact_constant(bits: u32, sig: nat, e: nat, f: int, num: int, den: int)
    requires
        0x80_0000 <= sig < 0x100_0000,
        e <= 149,
        bits == e * 0x80_0000 + sig,
        f == pow2((149 - e) as nat),
        sig * den == num * f,
    ensures
        (Single { bits }).is_finite_amount(),
        !(Single { bits }).negative(),
        amount(Single { bits }) * den == num * unit(),
        (Single { bits }).value() == amount(Single { bits }),
{
    lemma_constant(bits, sig, e);
    lemma_pow2_adds(e, (149 - e) as nat);
    let (p, u): (int, int) = (pow2(e) as int, unit() as int);
    assert((sig * p) * den == num * u) by (nonlinear_arith)
        requires
            u == p * f,
            sig * den == num * f,
    ;
}

/// The error of a number in use that stands for `num / den`.
pub proof fn lemma_near_constant(bits: u32, sig: nat, e: nat, f: int, num: int, den: int)
    requires
        0x80_0000 <= sig < 0x100_0000,
        e <= 149,
        bits == e * 0x80_0000 + sig,
        f == pow2((149 - e) as nat),
        num > 0,
        den > 0,
        near(sig as int, num * f, den, 1),
        sig * 1000 >= f,
        sig <= 4096 * f,
    ensures
        sized(Single { bits }, 1000, 4096),
        near(amount(Single { bits }), num * unit(), den, 1),
        !(Single { bits }).negative(),
{
    lemma_constant(bits, sig, e);
    lemma_pow2_adds(e, (149 - e) as nat);
    lemma_pow2_pos(e);
    let (p, u): (int, int) = (pow2(e) as int, unit() as int);
    let t: int = 0x100_0000;
    assert(u == p * f);
    let v: int = sig * p;
    assert(t * (v * den) == (t * (sig * den)) * p) by (nonlinear_arith)
        requires
            v == sig * p,
    ;
    assert((t - 1) * (num * u) == ((t - 1) * (num * f)) * p) by (nonlinear_arith)
        requires
            u == p * f,
    ;
    assert((t + 1) * (num * u) == ((t + 1) * (num * f)) * p) by (nonlinear_arith)
        requires
            u == p * f,
    ;
    assert(near(v, num * u, den, 1)) by {
        let (a, b, c): (int, int, int) = (
            (t - 1) * (num * f),
            t * (sig * den),
            (t + 1) * (num * f),
        );
        assert(a * p <= b * p <= c * p) by (nonlinear_arith)
            requires
                a <= b <= c,
                p > 0,
        ;
    }
    assert(v * 1000 >= u && v <= 4096 * u) by (nonlinear_arith)
        requires
            v == sig * p,
            u == p * f,
            p > 0,
            sig * 1000 >= f,
            sig <= 4096 * f,
    ;
}

/// Whether an amount is nothing, or at least one in `2^40` and at most `2^40`.
pub open spec fn ordinary(x: Single) -> bool {
    &&& x.is_finite_amount()
    &&& x.is_zero() || sized(x, 0x100_0000_0000, 0x100_0000_0000)
}

/// An ordinary amount that is not zero.
pub proof fn lemma_ordinary(x: Single)
    requires
        ordinary(x),
        amount(x) > 0,
    ensures
        amount(x) >= 0x80_0000,
        amount(x) * 0x100_0000_0000 >= unit(),
        amount(x) <= 0x100_0000_0000 * unit(),
{
    lemma_unit();
    lemma_amount(x);
}

/// Nothing is near to nothing.
pub proof fn lemma_near_nothing(n: int, d: int, k: int)
    requires
        n == 0,
    ensures
        near(0, n, d, k),
{
    assert(0 * d == 0);
    assert((0x100_0000 - k) * n == 0 && (0x100_0000 + k) * n == 0) by (nonlinear_arith)
        requires
            n == 0,
    ;
}

/// An error of at most sixteen parts in `2^24` is one of at most one part in `2^20`.
pub proof fn lemma_gap(v: int, n: int, d: int, k: int)
    requires
        near(v, n, d, k),
        n >= 0,
        k <= 16,
    ensures
        0x10_0000 * gap(v * d, n) <= n,
        n > 0 && d > 0 ==> v > 0,
{
    lemma_near_weaken(v, n, d, k, 16);
    if n > 0 && d > 0 {
        let w: int = v * d;
        assert(w > 0);
        assert(v > 0) by (nonlinear_arith)
            requires
                w == v * d,
                w > 0,
                d > 0,
        ;
    }
}

/// A finite amount is zero where its value is.
pub proof fn lemma_amount(x: Single)
    requires
        x.is_finite_amount(),
    ensures
        x.value() == amount(x),
        amount(x) >= 0,
        amount(x) == 0 <==> x.is_zero(),
{
    if x.magnitude() > 0 {
        lemma_steps_increase(0, x.magnitude());
    }
}

/// A number with a sign is the nearest one, among those of either sign.
proof fn lemma_signed_nearest(negative: bool, n: nat, d: nat, other: Single)
    requires
        d > 0,
        round(n, d) < INFINITE,
        other.magnitude() < INFINITE,
    ensures
        ({
            let exact = if negative {
                -(n as int)
            } else {
                n as int
            };
            gap(nearest(negative, n, d).value() * d, exact) <= gap(other.value() * d, exact)
        }),
{
    let m: nat = round(n, d);
    let r: Single = nearest(negative, n, d);
    assert(r.magnitude() == m && r.negative() == negative);
    rounding_is_to_nearest(n, d, other.magnitude());
    rounding_is_to_nearest(n, d, 0);
    let (v, w): (int, int) = (steps(m) as int, steps(other.magnitude()) as int);
    assert((-v) * d == -(v * d) && (-w) * d == -(w * d)) by (nonlinear_arith);
    assert(w * d >= 0) by (nonlinear_arith)
        requires
            w >= 0,
    ;
    assert(steps(0) * d == 0) by (nonlinear_arith)
        requires
            steps(0) == 0,
    ;
}

/// A product is the number that is nearest to the exact one.
pub proof fn products_are_nearest(a: Single, b: Single, other: Single)
    requires
        a.magnitude() < INFINITE,
        b.magnitude() < INFINITE,
        other.magnitude() < INFINITE,
        a.product(b).magnitude() < INFINITE,
    ensures
        gap(a.product(b).value() * unit(), a.value() * b.value()) <= gap(
            other.value() * unit(),
            a.value() * b.value(),
        ),
{
    lemma_unit();
    let (v, w): (nat, nat) = (steps(a.magnitude()), steps(b.magnitude()));
    lemma_round_bound(v * w, unit());
    lemma_signed_nearest(a.negative() != b.negative(), v * w, unit(), other);
    let (x, y): (int, int) = (v as int, w as int);
    assert((-x) * y == -(x * y) && x * (-y) == -(x * y) && (-x) * (-y) == x * y)
        by (nonlinear_arith);
}

/// A quotient is the number that is nearest to the exact one.
pub proof fn quotients_are_nearest(a: Single, b: Single, other: Single)
    requires
        a.magnitude() < INFINITE,
        b.magnitude() < INFINITE,
        !b.is_zero(),
        other.magnitude() < INFINITE,
        a.quotient(b).magnitude() < INFINITE,
    ensures
        gap(a.quotient(b).value() * b.value(), a.value() * unit()) <= gap(
            other.value() * b.value(),
            a.value() * unit(),
        ),
{
    lemma_unit();
    lemma_steps_increase(0, b.magnitude());
    let (v, w): (nat, nat) = (steps(a.magnitude()), steps(b.magnitude()));
    lemma_round_bound(v * unit(), w);
    let negative: bool = a.negative() != b.negative();
    lemma_signed_nearest(negative, v * unit(), w, other);
    let (x, y, u): (int, int, int) = (v as int, w as int, unit() as int);
    let (r, o): (int, int) = (a.quotient(b).value(), other.value());
    assert((-x) * u == -(x * u)) by (nonlinear_arith);
    assert(r * (-y) == -(r * y) && o * (-y) == -(o * y)) by (nonlinear_arith);
}

/// A sum is the number that is nearest to the exact one.
pub proof fn sums_are_nearest(a: Single, b: Single, other: Single)
    requires
        a.magnitude() < INFINITE,
        b.magnitude() < INFINITE,
        other.magnitude() < INFINITE,
        a.sum(b).magnitude() < INFINITE,
    ensures
        gap(a.sum(b).value(), a.value() + b.value()) <= gap(
            other.value(),
            a.value() + b.value(),
        ),
{
    let total: int = a.value() + b.value();
    if total > 0 {
        lemma_round_bound(total as nat, 1);
        lemma_signed_nearest(false, total as nat, 1, other);
    } else if total < 0 {
        lemma_round_bound((-total) as nat, 1);
        lemma_signed_nearest(true, (-total) as nat, 1, other);
    }
}

/// A difference is the number that is nearest to the exact one.
pub proof fn differences_are_nearest(a: Single, b: Single, other: Single)
    requires
        a.magnitude() < INFINITE,
        b.magnitude() < INFINITE,
        other.magnitude() < INFINITE,
        a.difference(b).magnitude() < INFINITE,
    ensures
        gap(a.difference(b).value(), a.value() - b.value()) <= gap(
            other.value(),
            a.value() - b.value(),
        ),
{
    let c: Single = b.opposite();
    assert(c.magnitude() == b.magnitude() && c.negative() == !b.negative());
    sums_are_nearest(a, c, other);
}

/// The number for an integer is the one that is nearest to it.
pub proof fn integers_are_nearest(n: int, other: Single)
    requires
        other.magnitude() < INFINITE,
        Single::of_int(n).magnitude() < INFINITE,
    ensures
        gap(Single::of_int(n).value(), n * unit()) <= gap(other.value(), n * unit()),
{
    let u: nat = unit();
    if n < 0 {
        lemma_round_bound((-n) as nat * u, 1);
        lemma_signed_nearest(true, (-n) as nat * u, 1, other);
        assert(-((-n) * u) == n * u) by (nonlinear_arith);
    } else {
        lemma_round_bound(n as nat * u, 1);
        lemma_signed_nearest(false, n as nat * u, 1, other);
    }
}

/// Integers below `2^24` are held as they are.
pub proof fn small_integers_are_exact(n: int)
    requires
        0 <= n < 0x100_0000,
    ensures
        Single::of_int(n).value() == n * unit(),
        Single::of_int(n).is_finite_amount(),
        !Single::of_int(n).negative(),
{
    lemma_unit();
    lemma2_to64();
    let (m, u): (nat, nat) = (n as nat, unit());
    let a: nat = m * u;
    let r: Single = Single::of_int(n);
    assert(r == nearest(false, a, 1));
    if n == 0 {
        assert(a == 0) by (nonlinear_arith)
            requires
                a == m * u,
                m == 0,
        ;
        lemma_round_zero(1);
        assert(n * unit() == 0) by (nonlinear_arith)
            requires
                n == 0,
        ;
    } else {
        lemma_near_int(n);
        lemma_round_bound(a, 1);
        assert(r.magnitude() == round(a, 1));
        let t: nat = lemma_round_grid(a, 1);
        let p: nat = pow2(t);
        if t > 149 {
            lemma_pow2_monotone(173, (23 + t) as nat);
            lemma_pow2_adds(24, 149);
            assert(a < 0x100_0000 * u) by (nonlinear_arith)
                requires
                    a == m * u,
                    m < 0x100_0000,
                    u > 0,
            ;
        }
        lemma_pow2_adds(t, (149 - t) as nat);
        lemma_pow2_pos(t);
        let c: nat = pow2((149 - t) as nat);
        let k: nat = m * c;
        assert(m * (p * c) == k * p) by (nonlinear_arith)
            requires
                k == m * c,
        ;
        lemma_fundamental_div_mod_converse(a as int, p as int, k as int, 0);
        assert(half_even(a, 1 * p) == k);
        lemma_amount(r);
    }
}

/// The whole part of an amount is the greatest integer that is not above it.
pub proof fn whole_parts_are_cut(x: Single)
    requires
        x.is_finite_amount(),
        x.value() < 0x1_0000_0000 * unit(),
    ensures
        x.whole() * unit() <= x.value() < (x.whole() + 1) * unit(),
{
    lemma_unit();
    lemma_amount(x);
    let (v, u): (int, int) = (amount(x), unit() as int);
    lemma_fundamental_div_mod(v, u);
    let q: int = v / u;
    assert(u * q == q * u && (q + 1) * u == q * u + u) by (nonlinear_arith);
    if q >= 0x1_0000_0000 {
        assert(q * u >= 0x1_0000_0000 * u) by (nonlinear_arith)
            requires
                q >= 0x1_0000_0000,
                u > 0,
        ;
    }
    if x.negative() {
        assert(v == 0);
        assert(0int / u == 0) by (nonlinear_arith)
            requires
                u > 0,
        ;
    }
}

/// What has no whole part that can be held becomes the nearest one that can.
pub proof fn whole_parts_are_held_to_their_range(x: Single)
    ensures
        x.is_nan() || x.negative() ==> x.whole() == 0,
        !x.is_nan() && x.value() >= 0x1_0000_0000 * unit() ==> x.whole() == u32::MAX,
{
    lemma_unit();
    let (v, u): (int, int) = (steps(x.magnitude()) as int, unit() as int);
    if !x.is_nan() && x.value() >= 0x1_0000_0000 * unit() {
        assert(!x.negative());
        lemma_fundamental_div_mod(v, u);
        let q: int = v / u;
        assert(q >= 0x1_0000_0000) by (nonlinear_arith)
            requires
                v == u * q + v % u,
                v % u < u,
                v >= 0x1_0000_0000 * u,
                u > 0,
        ;
    }
}

/// What is nearest to an exact value does not pass a number that the value does not pass.
proof fn lemma_between(r: int, exact: int, low: int, high: int, scale: int)
    requires
        scale > 0,
        low * scale <= exact <= high * scale,
        gap(r * scale, exact) <= gap(low * scale, exact),
        gap(r * scale, exact) <= gap(high * scale, exact),
    ensures
        low <= r <= high,
{
    let (a, b, c): (int, int, int) = (r * scale, low * scale, high * scale);
    if r < low {
        assert(a < b) by (nonlinear_arith)
            requires
                a == r * scale,
                b == low * scale,
                r < low,
                scale > 0,
        ;
    }
    if r > high {
        assert(a > c) by (nonlinear_arith)
            requires
                a == r * scale,
                c == high * scale,
                r > high,
                scale > 0,
        ;
    }
}

/// A part of one of something is at most all of it.
pub proof fn lemma_part(part: Single, whole: Single)
    requires
        part.is_finite_amount(),
        part.value() <= unit(),
        whole.is_finite_amount(),
    ensures
        part.product(whole).magnitude() < INFINITE,
        0 <= part.product(whole).value() <= whole.value(),
{
    lemma_unit();
    lemma_amount(part);
    lemma_amount(whole);
    let zero: Single = Single { bits: 0 };
    let u: int = unit() as int;
    let (v, s): (int, int) = (part.value(), whole.value());
    lemma_product_of_amounts(part, whole);
    assert(0 <= v * s <= s * u) by (nonlinear_arith)
        requires
            0 <= v <= u,
            s >= 0,
    ;
    lemma_round_small((v * s) as nat, u as nat, whole.magnitude());
    products_are_nearest(part, whole, zero);
    products_are_nearest(part, whole, whole);
    assert(zero.value() == 0);
    lemma_between(part.product(whole).value(), v * s, 0, s, u);
}

/// What is between nothing and twice an amount, less the amount, is at most it to either side.
pub proof fn lemma_centred(p: Single, h: Single)
    requires
        p.magnitude() < INFINITE,
        h.is_finite_amount(),
        0 <= p.value() <= 2 * h.value(),
    ensures
        p.difference(h).magnitude() < INFINITE,
        -h.value() <= p.difference(h).value() <= h.value(),
{
    lemma_amount(h);
    let back: Single = h.opposite();
    assert(back.magnitude() == h.magnitude() && back.value() == -h.value());
    lemma_sum_small(p, back, h);
    differences_are_nearest(p, h, back);
    differences_are_nearest(p, h, h);
    lemma_between(p.difference(h).value(), p.value() - h.value(), -h.value(), h.value(), 1);
}

/// A sum stays between numbers that are not inside of where its exact value may be.
pub proof fn lemma_shifted(m: Single, d: Single, lo: Single, hi: Single)
    requires
        m.magnitude() < INFINITE,
        d.magnitude() < INFINITE,
        lo.is_finite_amount(),
        hi.is_finite_amount(),
        lo.value() <= m.value() + d.value() <= hi.value(),
    ensures
        m.sum(d).magnitude() < INFINITE,
        lo.value() <= m.sum(d).value() <= hi.value(),
{
    lemma_amount(lo);
    lemma_amount(hi);
    lemma_sum_small(m, d, hi);
    sums_are_nearest(m, d, lo);
    sums_are_nearest(m, d, hi);
    lemma_between(m.sum(d).value(), m.value() + d.value(), lo.value(), hi.value(), 1);
}

/// A ratio that is not above a finite number rounds to a finite one.
proof fn lemma_round_small(n: nat, d: nat, m: nat)
    requires
        d > 0,
        m < INFINITE,
        n <= steps(m) * d,
    ensures
        round(n, d) < INFINITE,
{
    lemma_round_exact(m);
    lemma_round_same_ratio(steps(m), 1, d);
    lemma_round_monotone(n, steps(m) * d, d);
}

/// A sum whose size is at most that of a finite number is finite.
proof fn lemma_sum_small(a: Single, b: Single, bound: Single)
    requires
        a.magnitude() < INFINITE,
        b.magnitude() < INFINITE,
        bound.magnitude() < INFINITE,
        -amount(bound) <= a.value() + b.value() <= amount(bound),
    ensures
        a.sum(b).magnitude() < INFINITE,
{
    let t: int = a.value() + b.value();
    if t > 0 {
        lemma_round_small(t as nat, 1, bound.magnitude());
    } else if t < 0 {
        lemma_round_small((-t) as nat, 1, bound.magnitude());
    }
}

/// What is not a number stays so; what is infinite stays so, unless that has no meaning.
pub proof fn arithmetic_beyond_the_finite(a: Single, b: Single)
    ensures
        a.is_nan() || b.is_nan() ==> a.product(b).is_nan() && a.quotient(b).is_nan() && a.sum(
            b,
        ).is_nan() && a.difference(b).is_nan() && !a.le(b) && !a.lt(b),
        ({
            let numbers = !a.is_nan() && !b.is_nan();
            let either = a.is_infinite() || b.is_infinite();
            let sign = a.negative() != b.negative();
            let (p, q, s) = (a.product(b), a.quotient(b), a.sum(b));
            &&& numbers && either ==> {
                &&& a.is_zero() || b.is_zero() ==> p.is_nan()
                &&& !a.is_zero() && !b.is_zero() ==> p.is_infinite() && p.negative() == sign
            }
            &&& numbers && a.is_infinite() ==> {
                &&& b.is_infinite() ==> q.is_nan()
                &&& !b.is_infinite() ==> q.is_infinite() && q.negative() == sign
            }
            &&& numbers && !a.is_infinite() && b.is_infinite() ==> q.is_zero()
            &&& numbers && !a.is_infinite() && b.is_zero() ==> {
                &&& a.is_zero() ==> q.is_nan()
                &&& !a.is_zero() ==> q.is_infinite() && q.negative() == sign
            }
            &&& a.is_infinite() && b.is_infinite() ==> {
                &&& sign ==> s.is_nan()
                &&& !sign ==> s == a
            }
            &&& numbers && a.is_infinite() && !b.is_infinite() ==> s == a
            &&& numbers && !a.is_infinite() && b.is_infinite() ==> s == b
        }),
{
}

/// Numbers that are finite are ordered by their values, and infinity is past them all.
pub proof fn numbers_are_ordered(a: Single, b: Single)
    requires
        !a.is_nan(),
        !b.is_nan(),
    ensures
        a.le(b) <==> a.value() <= b.value(),
        a.lt(b) <==> a.value() < b.value(),
        a.is_infinite() && !a.negative() ==> b.le(a),
        a.is_infinite() && a.negative() ==> a.le(b),
        a.value() == b.value() ==> a == b || (a.is_zero() && b.is_zero()),
{
    let (m, n): (nat, nat) = (a.magnitude(), b.magnitude());
    if m < n {
        lemma_steps_increase(m, n);
    }
    if n < m {
        lemma_steps_increase(n, m);
    }
    if m > 0 {
        lemma_steps_increase(0, m);
    }
    if n > 0 {
        lemma_steps_increase(0, n);
    }
}

/// The values of magnitudes: the smallest are steps, and each further exponent doubles them.
pub proof fn exponents_double_values(magnitude: nat)
    ensures
        magnitude < 0x100_0000 ==> steps(magnitude) == magnitude,
        magnitude >= 0x80_0000 ==> steps(magnitude + 0x80_0000) == 2 * steps(magnitude),
{
    lemma2_to64();
    let (q, r): (int, int) = (magnitude as int / 0x80_0000, magnitude as int % 0x80_0000);
    lemma_fundamental_div_mod(magnitude as int, 0x80_0000);
    lemma_fundamental_div_mod_converse(magnitude as int + 0x80_0000, 0x80_0000, q + 1, r);
    if magnitude >= 0x80_0000 {
        let e: nat = (q - 1) as nat;
        lemma_pow2_adds(1, e);
        let (sig, p): (int, int) = (0x80_0000 + r, pow2(e) as int);
        assert(sig * (2 * p) == 2 * (sig * p)) by (nonlinear_arith);
        if magnitude < 0x100_0000 {
            assert(q == 1);
            assert(sig * p == sig) by (nonlinear_arith)
                requires
                    p == 1,
            ;
        }
    }
}

/// The parts of a number: its sign, and its magnitude, which is finite below that of infinity.
pub proof fn bits_are_sign_and_magnitude(x: Single)
    ensures
        x.negative() <==> x.bits >= 0x8000_0000,
        x.magnitude() == if x.negative() {
            x.bits - 0x8000_0000
        } else {
            x.bits as int
        },
        x.is_zero() <==> x.magnitude() == 0,
        x.is_infinite() <==> x.magnitude() == 0x7f80_0000,
        x.is_nan() <==> x.magnitude() > 0x7f80_0000,
        x.value() == if x.negative() {
            -steps(x.magnitude())
        } else {
            steps(x.magnitude()) as int
        },
{
}

} // verus!
