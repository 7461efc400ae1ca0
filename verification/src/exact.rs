//! Sums without rounding: natural numbers of any size, and whether a load stays within a share
//! of a total.

use crate::rounding::INFINITE;
use crate::single::{steps, Single};
use vstd::arithmetic::power2::{lemma2_to64, lemma_pow2_adds, pow2};
use vstd::prelude::*;

verus! {

/// The digit at a place of a number in base `2^32`; zero past the last one.
pub open spec fn limb(s: Seq<u32>, i: nat) -> nat {
    if i < s.len() {
        s[i as int] as nat
    } else {
        0
    }
}

/// The number that the lowest digits stand for.
pub open spec fn low(s: Seq<u32>, n: nat) -> nat
    decreases n,
{
    if n == 0 {
        0
    } else {
        low(s, (n - 1) as nat) + limb(s, (n - 1) as nat) * pow2(32 * ((n - 1) as nat))
    }
}

/// Past the last digit nothing is added.
proof fn lemma_low_end(s: Seq<u32>, n: nat)
    requires
        n >= s.len(),
    ensures
        low(s, n) == low(s, s.len()),
    decreases n,
{
    if n > s.len() {
        lemma_low_end(s, (n - 1) as nat);
        assert(0 * pow2(32 * ((n - 1) as nat)) == 0);
    }
}

/// The lowest digits alone decide on the number that they stand for.
proof fn lemma_low_same(s: Seq<u32>, t: Seq<u32>, n: nat)
    requires
        forall|i: nat| i < n ==> #[trigger] limb(s, i) == limb(t, i),
    ensures
        low(s, n) == low(t, n),
    decreases n,
{
    if n > 0 {
        lemma_low_same(s, t, (n - 1) as nat);
        assert(limb(s, (n - 1) as nat) == limb(t, (n - 1) as nat));
    }
}

/// A change of one digit.
proof fn lemma_low_update(s: Seq<u32>, t: Seq<u32>, k: nat, n: nat)
    requires
        k < n,
        forall|i: nat| i < n && i != k ==> #[trigger] limb(s, i) == limb(t, i),
    ensures
        low(t, n) + limb(s, k) * pow2(32 * k) == low(s, n) + limb(t, k) * pow2(32 * k),
    decreases n,
{
    let m: nat = (n - 1) as nat;
    if m == k {
        lemma_low_same(s, t, m);
    } else {
        lemma_low_update(s, t, k, m);
        assert(limb(s, m) == limb(t, m));
    }
}

/// The lowest digits stand for less than the place that follows.
proof fn lemma_low_bound(s: Seq<u32>, n: nat)
    ensures
        low(s, n) < pow2(32 * n),
    decreases n,
{
    lemma2_to64();
    if n > 0 {
        let m: nat = (n - 1) as nat;
        lemma_low_bound(s, m);
        lemma_pow2_adds(32, 32 * m);
        assert(32 + 32 * m == 32 * n);
        let p: nat = pow2(32 * m);
        let d: nat = limb(s, m);
        assert(d * p <= 0xffff_ffff * p) by (nonlinear_arith)
            requires
                d <= 0xffff_ffff,
        ;
    }
}

/// A natural number of any size.
#[derive(Debug)]
pub struct Tally {
    limbs: Vec<u32>,
}

impl View for Tally {
    type V = nat;

    closed spec fn view(&self) -> nat {
        low(self.limbs@, self.limbs@.len())
    }
}

impl Tally {
    /// Nothing.
    pub fn new() -> (r: Self)
        ensures
            r@ == 0,
    {
        Tally { limbs: Vec::new() }
    }

    /// Makes room for a digit at a place.
    fn reach(&mut self, at: usize)
        requires
            at < usize::MAX,
        ensures
            final(self)@ == old(self)@,
            final(self).limbs@.len() > at,
    {
        while self.limbs.len() <= at
            invariant
                at < usize::MAX,
                self@ == old(self)@,
            decreases at + 1 - self.limbs.len(),
        {
            let ghost before: Seq<u32> = self.limbs@;
            self.limbs.push(0);
            proof {
                let n: nat = before.len();
                lemma_low_same(before, self.limbs@, n);
                assert(0 * pow2(32 * n) == 0);
            }
        }
    }

    /// Adds one digit at a place.
    fn add_word(&mut self, word: u32, at: usize)
        requires
            at < 1000,
        ensures
            final(self)@ == old(self)@ + word as nat * pow2(32 * at as nat),
    {
        let mut carry: u32 = word;
        let mut i: usize = at;
        self.reach(i);
        let ghost sum: nat = old(self)@ + word as nat * pow2(32 * at as nat);
        while carry > 0
            invariant
                i <= self.limbs@.len(),
                sum == self@ + carry as nat * pow2(32 * i as nat),
            decreases
                    (if carry == 0 {
                        0
                    } else {
                        self.limbs@.len() - i + 1
                    }),
        {
            let ghost before: Seq<u32> = self.limbs@;
            proof {
                lemma2_to64();
            }
            if i == self.limbs.len() {
                self.limbs.push(carry);
                proof {
                    lemma_low_same(before, self.limbs@, before.len());
                    assert(limb(self.limbs@, i as nat) == carry);
                    assert(0 * pow2(32 * i as nat) == 0);
                }
                carry = 0;
            } else {
                let s: u64 = self.limbs[i] as u64 + carry as u64;
                let digit: u32 = (s % 0x1_0000_0000) as u32;
                let next: u32 = (s / 0x1_0000_0000) as u32;
                self.limbs.set(i, digit);
                proof {
                    let p: nat = pow2(32 * i as nat);
                    lemma_pow2_adds(32, 32 * i as nat);
                    assert(32 + 32 * i as nat == 32 * (i + 1) as nat);
                    lemma_low_update(before, self.limbs@, i as nat, before.len());
                    let old_digit: nat = before[i as int] as nat;
                    assert(old_digit * p + carry as nat * p == digit as nat * p + next as nat * (
                    0x1_0000_0000 * p)) by (nonlinear_arith)
                        requires
                            old_digit + carry == digit + next * 0x1_0000_0000,
                    ;
                }
                carry = next;
                i = i + 1;
            }
        }
        assert(0 * pow2(32 * i as nat) == 0);
    }

    /// Adds `m * 2^e`.
    pub fn add(&mut self, m: u64, e: u32)
        requires
            e < 1000,
        ensures
            final(self)@ == old(self)@ + m as nat * pow2(e as nat),
    {
        let q: usize = (e / 32) as usize;
        let r: u32 = e % 32;
        let power: u128 = crate::rounding::power(r);
        proof {
            lemma2_to64();
            crate::rounding::lemma_pow2_monotone(r as nat, 31);
            let p: nat = pow2(r as nat);
            assert(m as nat * p <= 0xffff_ffff_ffff_ffff * 0x8000_0000) by (nonlinear_arith)
                requires
                    m <= 0xffff_ffff_ffff_ffff,
                    p <= 0x8000_0000,
            ;
        }
        let wide: u128 = m as u128 * power;
        let a: u32 = (wide % 0x1_0000_0000) as u32;
        let b: u32 = (wide / 0x1_0000_0000 % 0x1_0000_0000) as u32;
        let c: u32 = (wide / 0x1_0000_0000 / 0x1_0000_0000) as u32;
        self.add_word(a, q);
        self.add_word(b, q + 1);
        self.add_word(c, q + 2);
        proof {
            let p: nat = pow2(32 * q as nat);
            lemma_pow2_adds(r as nat, 32 * q as nat);
            assert(r as nat + 32 * q as nat == e as nat);
            lemma_pow2_adds(32, 32 * q as nat);
            assert(32 + 32 * q as nat == 32 * (q + 1) as nat);
            lemma_pow2_adds(32, 32 * (q + 1) as nat);
            assert(32 + 32 * (q + 1) as nat == 32 * (q + 2) as nat);
            assert(wide == a + b * 0x1_0000_0000 + c * 0x1_0000_0000_0000_0000);
            let pr: nat = pow2(r as nat);
            assert(m as nat * (pr * p) == a as nat * p + b as nat * (0x1_0000_0000 * p) + c as nat
                * (0x1_0000_0000 * (0x1_0000_0000 * p))) by (nonlinear_arith)
                requires
                    m as nat * pr == a + b * 0x1_0000_0000 + c * 0x1_0000_0000_0000_0000,
            ;
        }
    }

    fn digit(&self, i: usize) -> (r: u32)
        ensures
            r == limb(self.limbs@, i as nat),
    {
        if i < self.limbs.len() {
            self.limbs[i]
        } else {
            0
        }
    }

    /// `<=`.
    pub fn at_most(&self, other: &Tally) -> (r: bool)
        ensures
            r == (self@ <= other@),
    {
        let n: usize = if self.limbs.len() < other.limbs.len() {
            other.limbs.len()
        } else {
            self.limbs.len()
        };
        let mut r: bool = true;
        for i in 0..n
            invariant
                r == (low(self.limbs@, i as nat) <= low(other.limbs@, i as nat)),
        {
            let a: u32 = self.digit(i);
            let b: u32 = other.digit(i);
            proof {
                lemma_low_bound(self.limbs@, i as nat);
                lemma_low_bound(other.limbs@, i as nat);
                let p: nat = pow2(32 * i as nat);
                if a < b {
                    assert((a + 1) * p <= b * p) by (nonlinear_arith)
                        requires
                            a + 1 <= b,
                    ;
                    assert((a + 1) * p == a * p + p) by (nonlinear_arith);
                } else if b < a {
                    assert((b + 1) * p <= a * p) by (nonlinear_arith)
                        requires
                            b + 1 <= a,
                    ;
                    assert((b + 1) * p == b * p + p) by (nonlinear_arith);
                }
            }
            r = a < b || (a == b && r);
        }
        proof {
            lemma_low_end(self.limbs@, n as nat);
            lemma_low_end(other.limbs@, n as nat);
        }
        r
    }
}

/// The exact sum of numbers, counted in steps of `2^-149`.
pub open spec fn sum_of(parts: Seq<Single>) -> int
    decreases parts.len(),
{
    if parts.len() == 0 {
        0
    } else {
        sum_of(parts.drop_last()) + parts.last().value()
    }
}

/// The sum of two lists together.
pub proof fn lemma_sum_concat(a: Seq<Single>, b: Seq<Single>)
    ensures
        sum_of(a + b) == sum_of(a) + sum_of(b),
    decreases b.len(),
{
    if b.len() == 0 {
        assert(a + b =~= a);
    } else {
        assert((a + b).drop_last() =~= a + b.drop_last());
        lemma_sum_concat(a, b.drop_last());
    }
}

/// The sum of two numbers and a list.
pub proof fn lemma_sum_after_two(a: Single, b: Single, rest: Seq<Single>)
    ensures
        sum_of(seq![a, b] + rest) == a.value() + b.value() + sum_of(rest),
{
    lemma_sum_concat(seq![a, b], rest);
    assert(seq![a, b].drop_last() =~= seq![a]);
    assert(seq![a].drop_last() =~= Seq::<Single>::empty());
    reveal_with_fuel(sum_of, 3);
}

/// Whether all numbers are finite.
pub open spec fn all_finite(parts: Seq<Single>) -> bool {
    forall|i: int| 0 <= i < parts.len() ==> (#[trigger] parts[i]).magnitude() < INFINITE
}

/// Whether a share in percent can be taken of a total without rounding.
pub open spec fn comparable(parts: Seq<Single>, total: Single, limit: Single) -> bool {
    &&& all_finite(parts)
    &&& total.magnitude() < INFINITE
    &&& limit.magnitude() < INFINITE
    &&& total.value() > 0
}

/// Whether a load, counted in steps of `2^-149`, is at most so many percent of a total. Both
/// sides are exact.
pub open spec fn at_most_percent(load: int, total: Single, limit: Single) -> bool {
    100 * load * pow2(149) <= limit.value() * total.value()
}

/// Whether the sum of the parts is at most so many percent of the total, without rounding;
/// nothing where that cannot be said.
pub fn compare_exactly(parts: &Vec<Single>, total: Single, limit: Single) -> (r: Option<bool>)
    ensures
        r == if comparable(parts@, total, limit) {
            Some(at_most_percent(sum_of(parts@), total, limit))
        } else {
            None
        },
{
    if total.size() >= INFINITE || limit.size() >= INFINITE || total.is_negative() || total.size()
        == 0 {
        proof {
            lemma_sign(total);
        }
        return None;
    }
    proof {
        lemma_sign(total);
    }
    let mut left: Tally = Tally::new();
    let mut right: Tally = Tally::new();
    let n: usize = parts.len();
    assert(sum_of(parts@.take(0)) == 0);
    let ghost unit: nat = pow2(149);
    assert(100 * 0 * unit == 0) by (nonlinear_arith);
    for i in 0..n
        invariant
            n == parts@.len(),
            all_finite(parts@.take(i as int)),
            left@ - right@ == 100 * sum_of(parts@.take(i as int)) * pow2(149),
    {
        let part: Single = parts[i];
        if part.size() >= INFINITE {
            assert(!all_finite(parts@));
            return None;
        }
        let (m, e) = part.parts();
        if part.is_negative() {
            right.add(100 * m as u64, e + 149);
        } else {
            left.add(100 * m as u64, e + 149);
        }
        proof {
            let now: Seq<Single> = parts@.take(i + 1);
            let prior: Seq<Single> = parts@.take(i as int);
            assert(now.drop_last() =~= prior);
            assert(now.last() == part);
            assert forall|j: int| 0 <= j < now.len() implies (#[trigger] now[j]).magnitude()
                < INFINITE by {
                if j < i {
                    assert(now[j] == prior[j]);
                }
            }
            lemma_pow2_adds(e as nat, 149);
            let p: int = pow2(149) as int;
            let k: int = pow2(e as nat) as int;
            let sum: int = sum_of(prior);
            let v: int = m * k;
            assert(100 * m * (k * p) == 100 * v * p) by (nonlinear_arith)
                requires
                    v == m * k,
            ;
            assert(100 * (sum + v) * p == 100 * sum * p + 100 * v * p) by (nonlinear_arith);
            assert(100 * (sum - v) * p == 100 * sum * p - 100 * v * p) by (nonlinear_arith);
        }
    }
    assert(parts@.take(n as int) =~= parts@);
    let (a, x) = limit.parts();
    let (b, y) = total.parts();
    proof {
        assert(a * b <= 0x100_0000 * 0x100_0000) by (nonlinear_arith)
            requires
                a <= 0x100_0000,
                b <= 0x100_0000,
        ;
    }
    let product: u64 = a as u64 * b as u64;
    if limit.is_negative() {
        left.add(product, x + y);
    } else {
        right.add(product, x + y);
    }
    proof {
        lemma_pow2_adds(x as nat, y as nat);
        let px: int = pow2(x as nat) as int;
        let py: int = pow2(y as nat) as int;
        let u: int = a * px;
        let v: int = b * py;
        assert((a * b) * (px * py) == u * v) by (nonlinear_arith)
            requires
                u == a * px,
                v == b * py,
        ;
        assert((-u) * v == -(u * v)) by (nonlinear_arith);
    }
    Some(left.at_most(&right))
}

/// A number that is not zero is above zero where it is not negative, and below zero where it
/// is.
pub proof fn lemma_sign(x: Single)
    ensures
        x.value() > 0 <==> !x.negative() && x.magnitude() > 0,
{
    if x.magnitude() > 0 {
        crate::single::lemma_steps_increase(0, x.magnitude());
    }
}

} // verus!
