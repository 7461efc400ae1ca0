//! IEEE 754 single-precision numbers, held by their bits, with arithmetic that is exact
//! up to one rounding to nearest, ties to even.

use crate::rounding::{
    grow, lemma_grow_pos, lemma_pow2_monotone,
    lemma_round_same_ratio, lemma_scale, power, round, round_ratio, BINADE, INFINITE,
};
use vstd::arithmetic::div_mod::lemma_fundamental_div_mod_converse;
use vstd::arithmetic::mul::{lemma_mul_is_associative};
use vstd::arithmetic::power2::{
    lemma2_to64, lemma2_to64_rest, lemma_pow2_adds, lemma_pow2_pos, lemma_pow2_unfold, pow2,
};
use vstd::prelude::*;

verus! {

/// The weight of the sign bit.
pub const SIGN: u32 = 0x8000_0000;

/// The bits that arithmetic gives for a result that is not a number.
pub const NOT_A_NUMBER: u32 = 0x7fc0_0000;

/// A single-precision number. `==` compares the bits.
#[derive(Clone, Copy, Debug, PartialEq, Eq, Structural)]
pub struct Single {
    pub bits: u32,
}

/// The value of a magnitude, counted in steps of `2^-149`. Infinity counts as `2^128`.
pub open spec fn steps(magnitude: nat) -> nat {
    if magnitude < BINADE {
        magnitude
    } else {
        (BINADE as nat + magnitude % BINADE as nat) * pow2((magnitude / BINADE as nat - 1) as nat)
    }
}

/// The number with the given sign and magnitude.
pub open spec fn signed(negative: bool, magnitude: nat) -> Single {
    if negative {
        Single { bits: (SIGN + magnitude) as u32 }
    } else {
        Single { bits: magnitude as u32 }
    }
}

/// The number nearest to `n / d` steps, with the given sign.
pub open spec fn nearest(negative: bool, n: nat, d: nat) -> Single {
    signed(negative, round(n, d))
}

pub open spec fn nan() -> Single {
    Single { bits: NOT_A_NUMBER }
}

impl Single {
    pub open spec fn negative(self) -> bool {
        self.bits >= SIGN
    }

    pub open spec fn magnitude(self) -> nat {
        (self.bits % SIGN) as nat
    }

    pub open spec fn is_nan(self) -> bool {
        self.magnitude() > INFINITE
    }

    pub open spec fn is_infinite(self) -> bool {
        self.magnitude() == INFINITE
    }

    pub open spec fn is_zero(self) -> bool {
        self.magnitude() == 0
    }

    /// The value, counted in steps of `2^-149`.
    pub open spec fn value(self) -> int {
        if self.negative() {
            -(steps(self.magnitude()) as int)
        } else {
            steps(self.magnitude()) as int
        }
    }

    pub open spec fn product(self, other: Single) -> Single {
        let negative = self.negative() != other.negative();
        if self.is_nan() || other.is_nan() {
            nan()
        } else if self.is_infinite() || other.is_infinite() {
            if self.is_zero() || other.is_zero() {
                nan()
            } else {
                signed(negative, INFINITE as nat)
            }
        } else {
            nearest(negative, steps(self.magnitude()) * steps(other.magnitude()), pow2(149))
        }
    }

    pub open spec fn quotient(self, other: Single) -> Single {
        let negative = self.negative() != other.negative();
        if self.is_nan() || other.is_nan() {
            nan()
        } else if self.is_infinite() {
            if other.is_infinite() {
                nan()
            } else {
                signed(negative, INFINITE as nat)
            }
        } else if other.is_infinite() {
            signed(negative, 0)
        } else if other.is_zero() {
            if self.is_zero() {
                nan()
            } else {
                signed(negative, INFINITE as nat)
            }
        } else {
            nearest(negative, steps(self.magnitude()) * pow2(149), steps(other.magnitude()))
        }
    }

    pub open spec fn sum(self, other: Single) -> Single {
        if self.is_nan() || other.is_nan() {
            nan()
        } else if self.is_infinite() {
            if other.is_infinite() && self.negative() != other.negative() {
                nan()
            } else {
                self
            }
        } else if other.is_infinite() {
            other
        } else {
            let total = self.value() + other.value();
            if total > 0 {
                nearest(false, total as nat, 1)
            } else if total < 0 {
                nearest(true, (-total) as nat, 1)
            } else {
                signed(self.negative() && other.negative(), 0)
            }
        }
    }

    /// The number with the sign turned around.
    pub open spec fn opposite(self) -> Single {
        signed(!self.negative(), self.magnitude())
    }

    pub open spec fn difference(self, other: Single) -> Single {
        if other.is_nan() {
            nan()
        } else {
            self.sum(other.opposite())
        }
    }

    /// Whether the value is at most the other one; never so where either is not a number.
    pub open spec fn le(self, other: Single) -> bool {
        &&& !self.is_nan()
        &&& !other.is_nan()
        &&& self.value() <= other.value()
    }

    /// Whether the value lies below the other one; never so where either is not a number.
    pub open spec fn lt(self, other: Single) -> bool {
        &&& !self.is_nan()
        &&& !other.is_nan()
        &&& self.value() < other.value()
    }

    /// The number nearest to an integer.
    pub open spec fn of_int(n: int) -> Single {
        if n < 0 {
            nearest(true, (-n) as nat * pow2(149), 1)
        } else {
            nearest(false, n as nat * pow2(149), 1)
        }
    }

    /// The whole part, held to the range of `u32`; zero where it is not a number.
    pub open spec fn whole(self) -> nat {
        if self.is_nan() || self.negative() {
            0
        } else if steps(self.magnitude()) / pow2(149) > u32::MAX {
            u32::MAX as nat
        } else {
            steps(self.magnitude()) / pow2(149)
        }
    }
}

/// A larger magnitude has a larger value.
pub proof fn lemma_steps_increase(a: nat, b: nat)
    requires
        a < b,
    ensures
        steps(a) < steps(b),
{
    lemma2_to64();
    let ea: int = a as int / BINADE as int;
    let eb: int = b as int / BINADE as int;
    if eb > 0 {
        let pb: nat = pow2((eb - 1) as nat);
        lemma_pow2_pos((eb - 1) as nat);
        let fb: int = b as int % BINADE as int;
        assert((BINADE + fb) * pb >= BINADE * pb) by (nonlinear_arith)
            requires
                fb >= 0,
                pb > 0,
        ;
        if ea == 0 {
            assert(BINADE * pb >= BINADE) by (nonlinear_arith)
                requires
                    pb > 0,
            ;
        } else {
            let pa: nat = pow2((ea - 1) as nat);
            let fa: int = a as int % BINADE as int;
            lemma_pow2_pos((ea - 1) as nat);
            if ea == eb {
                assert((BINADE + fa) * pb < (BINADE + fb) * pb) by (nonlinear_arith)
                    requires
                        fa < fb,
                        pb > 0,
                ;
            } else {
                lemma_pow2_unfold(ea as nat);
                lemma_pow2_monotone(ea as nat, (eb - 1) as nat);
                assert((BINADE + fa) * pa < BINADE * pb) by (nonlinear_arith)
                    requires
                        fa < BINADE,
                        pa > 0,
                        2 * pa <= pb,
                ;
            }
        }
    }
}

/// A ratio this close to a magnitude with exponent `t` rounds to that magnitude.
proof fn lemma_round_close(sig: nat, t: nat, delta: nat)
    requires
        0x80_0000 <= sig < 0x100_0000,
        1 <= t <= 253,
        4 * delta < pow2(t),
    ensures
        round(sig * pow2(t) + delta, 1) == t * BINADE + sig,
        round((sig * pow2(t) - delta) as nat, 1) == t * BINADE + sig,
{
    reveal(round);
    lemma2_to64();
    let p: int = pow2(t) as int;
    lemma_pow2_pos(t);
    lemma_pow2_adds(24, t);
    lemma_pow2_adds(23, t);
    let up: nat = sig * pow2(t) + delta;
    assert(0x80_0000 * p <= sig * p) by (nonlinear_arith)
        requires
            sig >= 0x80_0000,
            p > 0,
    ;
    assert(sig * p <= 0xff_ffff * p) by (nonlinear_arith)
        requires
            sig <= 0xff_ffff,
            p > 0,
    ;
    lemma_scale(up, 1, 0, t);
    lemma_fundamental_div_mod_converse(up as int, p, sig as int, delta as int);
    let down: nat = (sig * pow2(t) - delta) as nat;
    if delta == 0 {
        assert(down == up);
    } else if sig > 0x80_0000 {
        assert(sig * p == (sig - 1) * p + p) by (nonlinear_arith);
        assert((sig - 1) * p >= 0x80_0000 * p) by (nonlinear_arith)
            requires
                sig - 1 >= 0x80_0000,
                p > 0,
        ;
        lemma_scale(down, 1, 0, t);
        lemma_fundamental_div_mod_converse(down as int, p, sig - 1, p - delta);
    } else {
        let h: int = pow2((t - 1) as nat) as int;
        lemma_pow2_unfold(t);
        lemma_pow2_adds(22, t);
        lemma_pow2_adds(23, (t - 1) as nat);
        lemma_pow2_adds(24, (t - 1) as nat);
        assert(sig * p == 0xff_ffff * h + h) by (nonlinear_arith)
            requires
                sig == 0x80_0000,
                p == 2 * h,
        ;
        lemma_scale(down, 1, 0, (t - 1) as nat);
        lemma_fundamental_div_mod_converse(down as int, h, 0xff_ffff, h - delta);
    }
}

/// Builds a number from its sign and magnitude.
fn assemble(negative: bool, magnitude: u32) -> (r: Single)
    requires
        magnitude < SIGN,
    ensures
        r == signed(negative, magnitude as nat),
{
    if negative {
        Single { bits: SIGN + magnitude }
    } else {
        Single { bits: magnitude }
    }
}

/// The sum of `a * 2^x` and `b * 2^y` steps with their signs, where `x >= y`.
fn sum_parts(neg_a: bool, a: u32, x: u32, neg_b: bool, b: u32, y: u32) -> (r: Single)
    requires
        a < 0x100_0000,
        b < 0x100_0000,
        y <= x <= 253,
        x > 0 ==> a >= 0x80_0000,
    ensures
        ({
            let va = if neg_a {
                -(a * pow2(x as nat))
            } else {
                a * pow2(x as nat)
            };
            let vb = if neg_b {
                -(b * pow2(y as nat))
            } else {
                b * pow2(y as nat)
            };
            let total = va + vb;
            r == if total > 0 {
                nearest(false, total as nat, 1)
            } else if total < 0 {
                nearest(true, (-total) as nat, 1)
            } else {
                signed(neg_a && neg_b, 0)
            }
        }),
{
    let gap: u32 = x - y;
    let ghost px: int = pow2(x as nat) as int;
    let ghost py: int = pow2(y as nat) as int;
    proof {
        lemma2_to64();
        lemma2_to64_rest();
        lemma_pow2_adds(gap as nat, y as nat);
        lemma_pow2_pos(x as nat);
        lemma_pow2_pos(y as nat);
    }
    if gap <= 39 {
        let ghost pg: int = pow2(gap as nat) as int;
        proof {
            lemma_pow2_monotone(gap as nat, 39);
            assert(a * pg <= 0x100_0000 * 0x80_0000_0000) by (nonlinear_arith)
                requires
                    a <= 0x100_0000,
                    0 <= pg <= 0x80_0000_0000,
            ;
        }
        let wide: u64 = ((a as u128) * power(gap)) as u64;
        assert(wide * py == a * px) by (nonlinear_arith)
            requires
                wide == a * pg,
                px == pg * py,
        ;
        let negative: bool;
        let m: u64;
        if neg_a == neg_b {
            negative = neg_a;
            m = wide + b as u64;
            assert(m * py == a * px + b * py) by (nonlinear_arith)
                requires
                    m == wide + b,
                    wide * py == a * px,
            ;
        } else if wide >= b as u64 {
            negative = neg_a;
            m = wide - b as u64;
            assert(m * py == a * px - b * py) by (nonlinear_arith)
                requires
                    m == wide - b,
                    wide * py == a * px,
            ;
        } else {
            negative = neg_b;
            m = b as u64 - wide;
            assert(m * py == b * py - a * px) by (nonlinear_arith)
                requires
                    m == b - wide,
                    wide * py == a * px,
            ;
        }
        if m == 0 {
            return assemble(neg_a && neg_b, 0);
        }
        assert(m * py > 0) by (nonlinear_arith)
            requires
                m > 0,
                py > 0,
        ;
        let rounded: u32 = round_ratio(m, 1, y as i32);
        assert(m as nat * grow(y as int) == m * py);
        assemble(negative, rounded)
    } else {
        proof {
            lemma_pow2_adds(24, y as nat);
            lemma_pow2_monotone((26 + y) as nat, x as nat);
            lemma_pow2_adds(26, y as nat);
            assert(4 * (b * py) < px) by (nonlinear_arith)
                requires
                    b < 0x100_0000,
                    py > 0,
                    0x400_0000 * py <= px,
            ;
            assert(b * py >= 0) by (nonlinear_arith)
                requires
                    b >= 0,
                    py > 0,
            ;
            assert(a * px > b * py) by (nonlinear_arith)
                requires
                    a >= 0x80_0000,
                    4 * (b * py) < px,
                    px > 0,
            ;
            lemma_round_close(a as nat, x as nat, (b * py) as nat);
        }
        assemble(neg_a, x * BINADE + a)
    }
}

impl Single {
    pub(crate) fn is_negative(self) -> (r: bool)
        ensures
            r == self.negative(),
    {
        self.bits >= SIGN
    }

    pub(crate) fn size(self) -> (r: u32)
        ensures
            r == self.magnitude(),
            r < SIGN,
    {
        self.bits % SIGN
    }

    /// The significand and the exponent of a finite number.
    pub(crate) fn parts(self) -> (r: (u32, u32))
        requires
            self.magnitude() < INFINITE,
        ensures
            steps(self.magnitude()) == r.0 * pow2(r.1 as nat),
            r.0 < 0x100_0000,
            r.1 <= 253,
            r.1 > 0 ==> r.0 >= 0x80_0000,
            r.0 == 0 <==> self.magnitude() == 0,
    {
        proof {
            lemma2_to64();
        }
        let m: u32 = self.size();
        if m < BINADE {
            assert(m * pow2(0) == m);
            (m, 0)
        } else {
            (BINADE + m % BINADE, m / BINADE - 1)
        }
    }

    /// Multiplication.
    pub fn times(self, other: Single) -> (r: Single)
        ensures
            r == self.product(other),
    {
        let negative: bool = self.is_negative() != other.is_negative();
        let m: u32 = self.size();
        let n: u32 = other.size();
        if m > INFINITE || n > INFINITE {
            return Single { bits: NOT_A_NUMBER };
        }
        if m == INFINITE || n == INFINITE {
            if m == 0 || n == 0 {
                return Single { bits: NOT_A_NUMBER };
            }
            return assemble(negative, INFINITE);
        }
        let (a, x) = self.parts();
        let (b, y) = other.parts();
        assert(a * b <= 0x100_0000 * 0x100_0000) by (nonlinear_arith)
            requires
                0 <= a <= 0x100_0000,
                0 <= b <= 0x100_0000,
        ;
        let wide: u64 = a as u64 * b as u64;
        let w: i32 = x as i32 + y as i32 - 149;
        proof {
            let px: int = pow2(x as nat) as int;
            let py: int = pow2(y as nat) as int;
            let n: nat = steps(self.magnitude()) * steps(other.magnitude());
            lemma_pow2_adds(x as nat, y as nat);
            assert(n == wide * pow2((x + y) as nat)) by (nonlinear_arith)
                requires
                    n == (a * px) * (b * py),
                    wide == a * b,
                    pow2((x + y) as nat) == px * py,
            ;
            let gn: nat = grow(w as int);
            let gd: nat = grow(-w as int);
            lemma2_to64();
            lemma_pow2_pos((x + y) as nat);
            lemma_pow2_pos(149);
            let c: nat = if w > 0 {
                pow2(149)
            } else {
                pow2((x + y) as nat)
            };
            if w > 0 {
                lemma_pow2_adds(w as nat, 149);
            } else if w < 0 {
                lemma_pow2_adds((-w) as nat, (x + y) as nat);
            }
            assert(pow2((x + y) as nat) == gn * c);
            assert(pow2(149) == gd * c);
            lemma_mul_is_associative(wide as int, gn as int, c as int);
            assert(n == wide as nat * gn * c);
            lemma_grow_pos(-w as int);
            lemma_round_same_ratio(wide as nat * gn, gd, c);
            assert(1 * gd == gd);
        }
        assemble(negative, round_ratio(wide, 1, w))
    }

    /// Division.
    pub fn over(self, other: Single) -> (r: Single)
        ensures
            r == self.quotient(other),
    {
        let negative: bool = self.is_negative() != other.is_negative();
        let m: u32 = self.size();
        let n: u32 = other.size();
        if m > INFINITE || n > INFINITE {
            return Single { bits: NOT_A_NUMBER };
        }
        if m == INFINITE {
            if n == INFINITE {
                return Single { bits: NOT_A_NUMBER };
            }
            return assemble(negative, INFINITE);
        }
        if n == INFINITE {
            return assemble(negative, 0);
        }
        if n == 0 {
            if m == 0 {
                return Single { bits: NOT_A_NUMBER };
            }
            return assemble(negative, INFINITE);
        }
        let (a, x) = self.parts();
        let (b, y) = other.parts();
        let w: i32 = x as i32 + 149 - y as i32;
        proof {
            lemma2_to64();
            let px: int = pow2(x as nat) as int;
            let py: int = pow2(y as nat) as int;
            lemma_pow2_adds(x as nat, 149);
            lemma_pow2_pos(y as nat);
            lemma_pow2_pos((x + 149) as nat);
            let gn: nat = grow(w as int);
            let gd: nat = grow(-w as int);
            lemma_grow_pos(-w as int);
            let c: nat = if w > 0 {
                pow2(y as nat)
            } else {
                pow2((x + 149) as nat)
            };
            assert(pow2((x + 149) as nat) == gn * c && pow2(y as nat) == gd * c) by {
                if w > 0 {
                    lemma_pow2_adds(w as nat, y as nat);
                    assert(w as nat + y as nat == (x + 149) as nat);
                    assert(gn == pow2(w as nat) && gd == 1);
                    assert(1 * c == c);
                } else if w < 0 {
                    lemma_pow2_adds((-w) as nat, (x + 149) as nat);
                    assert((-w) as nat + (x + 149) as nat == y as nat);
                    assert(gd == pow2((-w) as nat) && gn == 1);
                    assert(1 * c == c);
                } else {
                    assert(gn == 1 && gd == 1);
                    assert((x + 149) as nat == y as nat);
                    assert(1 * c == c);
                }
            }
            let top: nat = steps(self.magnitude()) * pow2(149);
            assert(top == a as nat * gn * c) by (nonlinear_arith)
                requires
                    top == (a * px) * pow2(149),
                    px * pow2(149) == gn * c,
            ;
            lemma_mul_is_associative(b as int, gd as int, c as int);
            assert(steps(other.magnitude()) == b as nat * gd * c);
            assert(b as nat * gd > 0) by (nonlinear_arith)
                requires
                    b > 0,
                    gd > 0,
            ;
            lemma_round_same_ratio(a as nat * gn, b as nat * gd, c);
        }
        assemble(negative, round_ratio(a as u64, b, w))
    }

    /// Addition.
    pub fn plus(self, other: Single) -> (r: Single)
        ensures
            r == self.sum(other),
    {
        let m: u32 = self.size();
        let n: u32 = other.size();
        if m > INFINITE || n > INFINITE {
            return Single { bits: NOT_A_NUMBER };
        }
        if m == INFINITE {
            if n == INFINITE && self.is_negative() != other.is_negative() {
                return Single { bits: NOT_A_NUMBER };
            }
            return self;
        }
        if n == INFINITE {
            return other;
        }
        let (a, x) = self.parts();
        let (b, y) = other.parts();
        if x >= y {
            sum_parts(self.is_negative(), a, x, other.is_negative(), b, y)
        } else {
            sum_parts(other.is_negative(), b, y, self.is_negative(), a, x)
        }
    }

    /// Subtraction.
    pub fn minus(self, other: Single) -> (r: Single)
        ensures
            r == self.difference(other),
    {
        let n: u32 = other.size();
        if n > INFINITE {
            return Single { bits: NOT_A_NUMBER };
        }
        self.plus(assemble(!other.is_negative(), n))
    }

    /// An integer that orders numbers as their values do.
    fn rank(self) -> (r: i64)
        ensures
            r == if self.negative() {
                -(self.magnitude() as int)
            } else {
                self.magnitude() as int
            },
    {
        let m: u32 = self.size();
        if self.is_negative() {
            -(m as i64)
        } else {
            m as i64
        }
    }

    /// `<=`.
    pub fn at_most(self, other: Single) -> (r: bool)
        ensures
            r == self.le(other),
    {
        let a: i64 = self.rank();
        let b: i64 = other.rank();
        proof {
            let m: nat = self.magnitude();
            let n: nat = other.magnitude();
            if m < n {
                lemma_steps_increase(m, n);
            }
            if n < m {
                lemma_steps_increase(n, m);
            }
            if m > 0 {
                lemma_steps_increase(0, m);
            }
            if n > 0 {
                lemma_steps_increase(0, n);
            }
        }
        self.size() <= INFINITE && other.size() <= INFINITE && a <= b
    }

    /// `<`.
    pub fn below(self, other: Single) -> (r: bool)
        ensures
            r == self.lt(other),
    {
        self.at_most(other) && !other.at_most(self)
    }

    /// The number nearest to an integer.
    pub fn from_i64(n: i64) -> (r: Single)
        ensures
            r == Single::of_int(n as int),
    {
        assert(grow(-149) == 1 && grow(149) == pow2(149));
        if n < 0 {
            let m: u64 = (-(n as i128)) as u64;
            assemble(true, round_ratio(m, 1, 149))
        } else {
            assemble(false, round_ratio(n as u64, 1, 149))
        }
    }

    /// The number nearest to an integer.
    pub fn from_u32(n: u32) -> (r: Single)
        ensures
            r == Single::of_int(n as int),
    {
        Self::from_i64(n as i64)
    }

    /// The whole part, held to the range of `u32`.
    pub fn truncate(self) -> (r: u32)
        ensures
            r == self.whole(),
    {
        let m: u32 = self.size();
        if m > INFINITE || self.is_negative() {
            return 0;
        }
        proof {
            lemma2_to64();
            lemma2_to64_rest();
            lemma_pow2_pos(149);
        }
        if m == INFINITE {
            proof {
                lemma_pow2_adds(128, 149);
                lemma_pow2_adds(23, 254);
                lemma_pow2_adds(64, 64);
                lemma_fundamental_div_mod_converse(
                    steps(m as nat) as int,
                    pow2(149) as int,
                    pow2(128) as int,
                    0,
                );
            }
            return u32::MAX;
        }
        let (a, x) = self.parts();
        if x >= 149 {
            let k: u32 = x - 149;
            proof {
                lemma_pow2_adds(k as nat, 149);
                lemma_mul_is_associative(a as int, pow2(k as nat) as int, pow2(149) as int);
                lemma_fundamental_div_mod_converse(
                    steps(m as nat) as int,
                    pow2(149) as int,
                    a * pow2(k as nat),
                    0,
                );
                let p: int = pow2(k as nat) as int;
                assert(a * p <= 0x100_0000 * p) by (nonlinear_arith)
                    requires
                        a <= 0x100_0000,
                        p >= 0,
                ;
                assert(a * p >= 0x80_0000 * p) by (nonlinear_arith)
                    requires
                        a >= 0x80_0000,
                        p >= 0,
                ;
                if k >= 9 {
                    lemma_pow2_monotone(9, k as nat);
                } else {
                    lemma_pow2_monotone(k as nat, 9);
                }
            }
            if k >= 9 {
                u32::MAX
            } else {
                let r: u128 = (a as u128) * power(k);
                if r > u32::MAX as u128 {
                    u32::MAX
                } else {
                    r as u32
                }
            }
        } else {
            let k: u32 = 149 - x;
            proof {
                lemma_pow2_adds(k as nat, x as nat);
                lemma_pow2_pos(k as nat);
                lemma_pow2_pos(x as nat);
                let pk: int = pow2(k as nat) as int;
                let px: int = pow2(x as nat) as int;
                let q: int = a as int / pk;
                let r: int = a as int % pk;
                vstd::arithmetic::div_mod::lemma_fundamental_div_mod(a as int, pk);
                assert(a * px == q * (pk * px) + r * px) by (nonlinear_arith)
                    requires
                        a == pk * q + r,
                ;
                assert(0 <= r * px < pk * px) by (nonlinear_arith)
                    requires
                        0 <= r < pk,
                        px > 0,
                ;
                lemma_fundamental_div_mod_converse(a * px, pk * px, q, r * px);
                if k >= 24 {
                    lemma_pow2_monotone(24, k as nat);
                    lemma_fundamental_div_mod_converse(a as int, pk, 0, a as int);
                } else {
                    assert(q <= a) by (nonlinear_arith)
                        requires
                            a == pk * q + r,
                            pk >= 1,
                            0 <= r,
                            a >= 0,
                    ;
                }
            }
            if k >= 24 {
                0
            } else {
                ((a as u128) / power(k)) as u32
            }
        }
    }
}

} // verus!
