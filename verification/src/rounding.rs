//! Rounding of an exact ratio to a binary floating-point magnitude with a
//! significand of 24 bits, to nearest with ties to even.

use vstd::arithmetic::div_mod::{
    lemma_fundamental_div_mod, lemma_fundamental_div_mod_converse,
};
use vstd::arithmetic::mul::{
    lemma_mul_inequality, lemma_mul_is_associative, lemma_mul_is_commutative,
    };
use vstd::arithmetic::power2::{
    lemma2_to64, lemma2_to64_rest, lemma_pow2_adds, lemma_pow2_pos, lemma_pow2_strictly_increases,
    lemma_pow2_unfold, pow2,
};
use vstd::prelude::*;

verus! {

/// The magnitude that stands for infinity: the first one past every finite magnitude.
pub const INFINITE: u32 = 0x7f80_0000;

/// How many magnitudes share one exponent.
pub const BINADE: u32 = 0x80_0000;

/// `n / d` rounded to the nearest integer, halfway cases to the even one.
pub open spec fn half_even(n: nat, d: nat) -> nat {
    let q = n / d;
    let r = n % d;
    if 2 * r < d {
        q
    } else if 2 * r > d {
        q + 1
    } else {
        q + q % 2
    }
}

/// The least `t >= s` for which `n / d` lies below `2^(24 + t)`.
pub open spec fn scale(n: nat, d: nat, s: nat) -> nat
    decreases n - s,
{
    if s >= n || n < d * pow2(24 + s) {
        s
    } else {
        scale(n, d, s + 1)
    }
}

/// The magnitude nearest to `n / d` steps, one step being the smallest positive value.
/// With `t` the scale of the ratio, `2^t` steps lie between neighbouring
/// magnitudes there, so the significand is `n / (d * 2^t)` rounded; a carry out of the significand
/// moves on to the next exponent, and past the largest finite one stands infinity.
#[verifier::opaque]
pub open spec fn round(n: nat, d: nat) -> nat {
    let t = scale(n, d, 0);
    let m = t * BINADE + half_even(n, d * pow2(t));
    if m < INFINITE {
        m as nat
    } else {
        INFINITE as nat
    }
}

/// `2^w` for a positive `w`, and one otherwise.
pub open spec fn grow(w: int) -> nat {
    if w > 0 {
        pow2(w as nat)
    } else {
        1
    }
}

pub proof fn lemma_grow_pos(w: int)
    ensures
        grow(w) > 0,
{
    if w > 0 {
        lemma_pow2_pos(w as nat);
    }
}

/// A power of two exceeds its exponent.
proof fn lemma_pow2_exceeds(k: nat)
    ensures
        pow2(k) > k,
    decreases k,
{
    if k == 0 {
        lemma2_to64();
    } else {
        lemma_pow2_exceeds((k - 1) as nat);
        lemma_pow2_unfold(k);
    }
}

pub proof fn lemma_pow2_monotone(a: nat, b: nat)
    requires
        a <= b,
    ensures
        pow2(a) <= pow2(b),
{
    if a < b {
        lemma_pow2_strictly_increases(a, b);
    }
}

/// What fixes the scale of a ratio.
pub proof fn lemma_scale(n: nat, d: nat, s: nat, t: nat)
    requires
        d > 0,
        s <= t,
        n < d * pow2(24 + t),
        t == s || n >= d * pow2((23 + t) as nat),
    ensures
        scale(n, d, s) == t,
    decreases t - s,
{
    if s < t {
        lemma_pow2_monotone(24 + s, (23 + t) as nat);
        lemma_mul_inequality(pow2(24 + s) as int, pow2((23 + t) as nat) as int, d as int);
        lemma_mul_is_commutative(d as int, pow2(24 + s) as int);
        lemma_mul_is_commutative(d as int, pow2((23 + t) as nat) as int);
        assert(n >= d * pow2(24 + s));
        lemma_pow2_exceeds(24 + s);
        assert(n > s) by {
            assert(d * pow2(24 + s) >= pow2(24 + s)) by (nonlinear_arith)
                requires
                    d > 0,
                    pow2(24 + s) >= 0,
            ;
        }
        lemma_scale(n, d, s + 1, t);
    }
}

/// What the scale of a ratio satisfies.
pub proof fn lemma_scale_fits(n: nat, d: nat, s: nat)
    requires
        d > 0,
    ensures
        scale(n, d, s) >= s,
        n < d * pow2(24 + scale(n, d, s)),
        scale(n, d, s) > s ==> n >= d * pow2((23 + scale(n, d, s)) as nat),
    decreases n - s,
{
    if s >= n || n < d * pow2(24 + s) {
        lemma_pow2_exceeds(24 + s);
        assert(d * pow2(24 + s) >= pow2(24 + s)) by (nonlinear_arith)
            requires
                d > 0,
                pow2(24 + s) >= 0,
        ;
    } else {
        lemma_scale_fits(n, d, s + 1);
    }
}

/// Rounding depends on the ratio alone.
pub proof fn lemma_half_even_same_ratio(n: nat, d: nat, c: nat)
    requires
        d > 0,
        c > 0,
    ensures
        half_even(n * c, d * c) == half_even(n, d),
{
    let q: int = n as int / d as int;
    let r: int = n as int % d as int;
    lemma_fundamental_div_mod(n as int, d as int);
    assert(n * c == q * (d * c) + r * c) by (nonlinear_arith)
        requires
            n == d * q + r,
    ;
    assert(0 <= r * c < d * c) by (nonlinear_arith)
        requires
            0 <= r < d,
            c > 0,
    ;
    lemma_fundamental_div_mod_converse((n * c) as int, (d * c) as int, q, r * c);
    assert(2 * r < d <==> 2 * (r * c) < d * c) by (nonlinear_arith)
        requires
            c > 0,
    ;
    assert(2 * r > d <==> 2 * (r * c) > d * c) by (nonlinear_arith)
        requires
            c > 0,
    ;
}

/// Rounding depends on the ratio alone.
pub proof fn lemma_round_same_ratio(n: nat, d: nat, c: nat)
    requires
        d > 0,
        c > 0,
    ensures
        round(n * c, d * c) == round(n, d),
{
    reveal(round);
    let t: nat = scale(n, d, 0);
    lemma_scale_fits(n, d, 0);
    assert(d * c > 0) by (nonlinear_arith)
        requires
            d > 0,
            c > 0,
    ;
    let hi: nat = pow2(24 + t);
    assert(n * c < d * c * hi) by (nonlinear_arith)
        requires
            n < d * hi,
            c > 0,
    ;
    if t > 0 {
        let lo: nat = pow2((23 + t) as nat);
        assert(n * c >= d * c * lo) by (nonlinear_arith)
            requires
                n >= d * lo,
                c > 0,
        ;
    }
    lemma_scale(n * c, d * c, 0, t);
    lemma_pow2_pos(t);
    let p: nat = pow2(t);
    assert(d * c * p == d * p * c) by (nonlinear_arith);
    assert(d * p > 0) by (nonlinear_arith)
        requires
            d > 0,
            p > 0,
    ;
    lemma_half_even_same_ratio(n, d * p, c);
}

/// Moves a factor `2^x` from the denominator over to the exponent of the ratio.
proof fn lemma_rescale(a: nat, b: nat, w: int, x: nat) -> (c: nat)
    ensures
        c > 0,
        a * grow(w) == a * grow(w - x) * c,
        b * grow(-w) * pow2(x) == b * grow(x - w) * c,
{
    lemma_pow2_pos(x);
    if x == 0 {
        lemma2_to64();
        assert(b * grow(-w) * 1 == b * grow(-w));
        assert(a * grow(w) * 1 == a * grow(w));
        1
    } else if w <= 0 {
        assert(grow(-w) * pow2(x) == grow(x - w)) by {
            if w < 0 {
                lemma_pow2_adds((-w) as nat, x);
            }
        }
        lemma_mul_is_associative(b as int, grow(-w) as int, pow2(x) as int);
        1
    } else if w < x {
        let c: nat = pow2(w as nat);
        lemma_pow2_pos(w as nat);
        lemma_pow2_adds((x - w) as nat, w as nat);
        lemma_mul_is_associative(b as int, grow(x - w) as int, c as int);
        assert(a * grow(w - x) * c == a * c);
        c
    } else {
        let c: nat = pow2(x);
        if w > x {
            lemma_pow2_adds((w - x) as nat, x);
        }
        lemma_mul_is_associative(a as int, grow(w - x) as int, c as int);
        c
    }
}

/// `2^k`.
pub fn power(k: u32) -> (r: u128)
    requires
        k <= 127,
    ensures
        r == pow2(k as nat),
{
    proof {
        lemma2_to64();
    }
    let mut i: u32 = 0;
    let mut r: u128 = 1;
    while i < k
        invariant
            i <= k <= 127,
            r == pow2(i as nat),
        decreases k - i,
    {
        proof {
            lemma_pow2_unfold((i + 1) as nat);
            lemma_pow2_monotone((i + 1) as nat, 127);
            lemma_pow2_adds(64, 63);
            lemma2_to64_rest();
        }
        r = r * 2;
        i = i + 1;
    }
    r
}

/// `n / d` rounded to the nearest integer, halfway cases to the even one.
pub fn divide_half_even(n: u128, d: u128) -> (q: u128)
    requires
        d > 0,
        n < u128::MAX,
    ensures
        q == half_even(n as nat, d as nat),
{
    let q: u128 = n / d;
    let r: u128 = n % d;
    assert(q <= n) by (nonlinear_arith)
        requires
            q == n / d,
            d > 0,
    ;
    if r < d - r {
        q
    } else if r > d - r {
        q + 1
    } else if q % 2 == 0 {
        q
    } else {
        q + 1
    }
}

/// Bounds on a rounded ratio from bounds on the ratio.
pub proof fn lemma_half_even_bounds(n: nat, d: nat, k: nat)
    requires
        d > 0,
    ensures
        n >= k * d ==> half_even(n, d) >= k,
        n < k * d ==> half_even(n, d) <= k,
        2 * n < d ==> half_even(n, d) == 0,
{
    let q: int = n as int / d as int;
    let r: int = n as int % d as int;
    lemma_fundamental_div_mod(n as int, d as int);
    if n >= k * d {
        assert(q >= k) by (nonlinear_arith)
            requires
                n == d * q + r,
                r < d,
                n >= k * d,
                d > 0,
        ;
    } else {
        assert(q + 1 <= k) by (nonlinear_arith)
            requires
                n == d * q + r,
                0 <= r,
                n < k * d,
                d > 0,
        ;
    }
    if 2 * n < d {
        lemma_fundamental_div_mod_converse(n as int, d as int, 0, n as int);
    }
}

/// Whether `a * 2^e` lies below `b`.
fn below(a: u64, b: u32, e: i32) -> (r: bool)
    requires
        0 < b < 0x100_0000,
        -2000 < e < 2000,
    ensures
        r == (a as nat * grow(e as int) < b as nat * grow(-e as int)),
        e <= -64 ==> r,
{
    proof {
        lemma2_to64();
        lemma2_to64_rest();
        lemma_grow_pos(e as int);
        lemma_grow_pos(-e as int);
    }
    if a == 0 {
        assert(b as nat * grow(-e as int) > 0) by (nonlinear_arith)
            requires
                b > 0,
                grow(-e as int) > 0,
        ;
        true
    } else if e >= 40 {
        proof {
            lemma_pow2_monotone(40, e as nat);
            let p: nat = pow2(e as nat);
            assert(a * p >= p) by (nonlinear_arith)
                requires
                    a >= 1,
                    p >= 0,
            ;
        }
        false
    } else if e >= 0 {
        proof {
            lemma_pow2_monotone(e as nat, 40);
            let p: nat = pow2(e as nat);
            assert(a * p <= 0x1_0000_0000_0000_0000 * 0x100_0000_0000) by (nonlinear_arith)
                requires
                    a <= 0x1_0000_0000_0000_0000,
                    p <= 0x100_0000_0000,
            ;
        }
        (a as u128) * power(e as u32) < b as u128
    } else if e <= -64 {
        proof {
            lemma_pow2_monotone(64, (-e) as nat);
            let p: nat = pow2((-e) as nat);
            assert(b * p >= p) by (nonlinear_arith)
                requires
                    b >= 1,
                    p >= 0,
            ;
        }
        true
    } else {
        let up: u32 = (-e) as u32;
        proof {
            lemma_pow2_monotone(up as nat, 64);
            let p: nat = pow2(up as nat);
            assert(b * p <= 0x100_0000 * 0x1_0000_0000_0000_0000) by (nonlinear_arith)
                requires
                    b <= 0x100_0000,
                    p <= 0x1_0000_0000_0000_0000,
            ;
        }
        (a as u128) < (b as u128) * power(up)
    }
}

/// The significand of a rounded ratio: `a * 2^k / b` rounded to an integer.
fn significand(a: u64, b: u32, k: i32) -> (q: u32)
    requires
        a > 0,
        0 < b < 0x100_0000,
        -2000 < k < 2000,
        a as nat * grow(k as int) < b as nat * grow(-k as int) * pow2(24),
    ensures
        q == half_even(a as nat * grow(k as int), b as nat * grow(-k as int)),
        q <= 0x100_0000,
{
    proof {
        lemma2_to64();
        lemma2_to64_rest();
        lemma_grow_pos(-k as int);
        let d: nat = b as nat * grow(-k as int);
        assert(d > 0) by (nonlinear_arith)
            requires
                b > 0,
                grow(-k as int) > 0,
                d == b as nat * grow(-k as int),
        ;
        lemma_mul_is_commutative(d as int, 0x100_0000);
        lemma_half_even_bounds(a as nat * grow(k as int), d, 0x100_0000);
    }
    if k >= 0 {
        proof {
            let p: nat = pow2(k as nat);
            if k >= 48 {
                lemma_pow2_monotone(48, k as nat);
                assert(a * p >= p) by (nonlinear_arith)
                    requires
                        a >= 1,
                        p >= 0,
                ;
                assert(false);
            }
        }
        let n: u128 = (a as u128) * power(k as u32);
        divide_half_even(n, b as u128) as u32
    } else {
        let up: u32 = (-k) as u32;
        if up >= 100 {
            proof {
                lemma_pow2_monotone(66, up as nat);
                lemma_pow2_adds(64, 2);
                let p: nat = pow2(up as nat);
                assert(b * p >= p) by (nonlinear_arith)
                    requires
                        b >= 1,
                        p >= 0,
                ;
                lemma_half_even_bounds(a as nat, (b * p) as nat, 0);
            }
            0
        } else {
            proof {
                let p: nat = pow2(up as nat);
                lemma_pow2_monotone(up as nat, 100);
                lemma_pow2_adds(64, 36);
                assert(b * p <= 0x100_0000 * (0x1_0000_0000_0000_0000 * 0x10_0000_0000))
                    by (nonlinear_arith)
                    requires
                        b <= 0x100_0000,
                        p <= 0x1_0000_0000_0000_0000 * 0x10_0000_0000,
                ;
                assert(b * p > 0);
            }
            divide_half_even(a as u128, (b as u128) * power(up)) as u32
        }
    }
}

/// The magnitude nearest to `a * 2^w / b` steps.
pub fn round_ratio(a: u64, b: u32, w: i32) -> (m: u32)
    requires
        0 < b < 0x100_0000,
        -600 <= w <= 600,
    ensures
        m == round(a as nat * grow(w as int), b as nat * grow(-w as int)),
        m <= INFINITE,
{
    proof {
        reveal(round);
    }
    let ghost n: nat = a as nat * grow(w as int);
    let ghost d: nat = b as nat * grow(-w as int);
    proof {
        lemma2_to64();
        lemma2_to64_rest();
        lemma_grow_pos(-w as int);
        assert(d > 0) by (nonlinear_arith)
            requires
                b > 0,
                grow(-w as int) > 0,
                d == b as nat * grow(-w as int),
        ;
    }
    if a == 0 {
        proof {
            assert(n == 0) by (nonlinear_arith)
                requires
                    n == a as nat * grow(w as int),
                    a == 0,
            ;
            assert(scale(n, d, 0) == 0);
            assert(d * pow2(0) == d);
            lemma_half_even_bounds(0, d, 0);
        }
        return 0;
    }
    let mut s: u32 = 0;
    loop
        invariant
            s <= 700,
            0 < b < 0x100_0000,
            -600 <= w <= 600,
            n == a as nat * grow(w as int),
            d == b as nat * grow(-w as int),
            s == 0 || n >= d * pow2((23 + s) as nat),
        ensures
            s <= 700,
            n < d * pow2((24 + s) as nat),
            s == 0 || n >= d * pow2((23 + s) as nat),
        decreases 700 - s,
    {
        let found: bool = below(a, b, w - 24 - s as i32);
        proof {
            let c: nat = lemma_rescale(a as nat, b as nat, w as int, (24 + s) as nat);
            let x: nat = a as nat * grow(w - (24 + s));
            let y: nat = b as nat * grow((24 + s) - w);
            assert(x < y <==> x * c < y * c) by (nonlinear_arith)
                requires
                    c > 0,
            ;
        }
        if found {
            break;
        }
        s = s + 1;
    }
    proof {
        lemma_scale(n, d, 0, s as nat);
    }
    let ghost c: nat = lemma_rescale(a as nat, b as nat, w as int, s as nat);
    proof {
        lemma_pow2_pos(s as nat);
        assert(d * pow2(s as nat) > 0) by (nonlinear_arith)
            requires
                d > 0,
                pow2(s as nat) > 0,
        ;
    }
    if s >= 254 {
        proof {
            lemma_pow2_adds(23, s as nat);
            lemma_mul_is_associative(0x80_0000, d as int, pow2(s as nat) as int);
            assert(d * (0x80_0000 * pow2(s as nat)) == 0x80_0000 * (d * pow2(s as nat)))
                by (nonlinear_arith);
            lemma_half_even_bounds(n, d * pow2(s as nat), 0x80_0000);
        }
        return INFINITE;
    }
    let k: i32 = w - s as i32;
    proof {
        let x: nat = a as nat * grow(k as int);
        let y: nat = b as nat * grow(-k as int);
        lemma_grow_pos(-k as int);
        assert(y > 0) by (nonlinear_arith)
            requires
                b > 0,
                grow(-k as int) > 0,
                y == b as nat * grow(-k as int),
        ;
        lemma_pow2_adds(s as nat, 24);
        lemma_mul_is_associative(d as int, pow2(s as nat) as int, pow2(24) as int);
        assert(x < y * pow2(24)) by (nonlinear_arith)
            requires
                x * c < (y * c) * pow2(24),
                c > 0,
        ;
        lemma_half_even_same_ratio(x, y, c);
    }
    let q: u32 = significand(a, b, k);
    s * BINADE + q
}

} // verus!
