//! Text made of numbers and pieces.

use crate::rounding::{
    divide_half_even, half_even, lemma_half_even_bounds, lemma_half_even_same_ratio,
    lemma_pow2_monotone, power, INFINITE,
};
use crate::single::{steps, Single};
use vstd::arithmetic::power2::{
    lemma2_to64, lemma2_to64_rest, lemma_pow2_adds, lemma_pow2_pos, pow2,
};
use vstd::prelude::*;

verus! {

/// A decimal digit.
pub open spec fn digit(d: nat) -> char {
    ((48 + d) as u8) as char
}

/// A number in decimal notation.
pub open spec fn decimal(n: nat) -> Seq<char>
    decreases n,
{
    if n < 10 {
        seq![digit(n)]
    } else {
        decimal(n / 10).push(digit(n % 10))
    }
}

/// Whether two texts are the same.
pub fn same(a: &str, b: &str) -> (r: bool)
    ensures
        r == (a@ == b@),
{
    a.to_owned() == b.to_owned()
}

/// The text of one digit.
fn digit_text(d: u128) -> (r: &'static str)
    requires
        d < 10,
    ensures
        r@ == seq![digit(d as nat)],
{
    proof {
        reveal_strlit("0");
        reveal_strlit("1");
        reveal_strlit("2");
        reveal_strlit("3");
        reveal_strlit("4");
        reveal_strlit("5");
        reveal_strlit("6");
        reveal_strlit("7");
        reveal_strlit("8");
        reveal_strlit("9");
    }
    if d == 0 {
        "0"
    } else if d == 1 {
        "1"
    } else if d == 2 {
        "2"
    } else if d == 3 {
        "3"
    } else if d == 4 {
        "4"
    } else if d == 5 {
        "5"
    } else if d == 6 {
        "6"
    } else if d == 7 {
        "7"
    } else if d == 8 {
        "8"
    } else {
        "9"
    }
}

/// Appends a number in decimal notation.
pub fn append_decimal(out: &mut String, n: u128)
    ensures
        final(out)@ == old(out)@ + decimal(n as nat),
    decreases n,
{
    if n >= 10 {
        append_decimal(out, n / 10);
    }
    out.append(digit_text(n % 10));
}

/// A number in decimal notation.
pub fn decimal_text(n: u128) -> (r: String)
    ensures
        r@ == decimal(n as nat),
{
    let mut r: String = String::new();
    append_decimal(&mut r, n);
    r
}

/// A number rounded to one digit after the point, halfway cases to the even digit.
pub open spec fn one_decimal(x: Single) -> Seq<char> {
    let sign = if x.negative() {
        "-"@
    } else {
        Seq::<char>::empty()
    };
    if x.is_nan() {
        "NaN"@
    } else if x.is_infinite() {
        sign + "inf"@
    } else {
        let tenths = half_even(steps(x.magnitude()) * 10, pow2(149));
        sign + decimal(tenths / 10) + "."@ + decimal(tenths % 10)
    }
}

/// The whole part and the first digit after the point of a finite number's magnitude.
fn split_tenths(x: Single) -> (r: (u128, u128))
    requires
        x.magnitude() < INFINITE,
    ensures
        ({
            let tenths = half_even(steps(x.magnitude()) * 10, pow2(149));
            r.0 == tenths / 10 && r.1 == tenths % 10
        }),
{
    let (a, e) = x.parts();
    let ghost n: nat = steps(x.magnitude());
    proof {
        lemma2_to64();
        lemma2_to64_rest();
        lemma_pow2_pos(149);
    }
    if e >= 149 {
        let k: u32 = e - 149;
        proof {
            let pk: nat = pow2(k as nat);
            lemma_pow2_adds(k as nat, 149);
            lemma_pow2_monotone(k as nat, 104);
            lemma_pow2_adds(64, 40);
            assert(a * pk <= 0xff_ffff * (0x1_0000_0000_0000_0000 * 0x100_0000_0000))
                by (nonlinear_arith)
                requires
                    a <= 0xff_ffff,
                    0 <= pk <= 0x1_0000_0000_0000_0000 * 0x100_0000_0000,
            ;
            assert(n * 10 == (a * pk * 10) * pow2(149)) by (nonlinear_arith)
                requires
                    n == a * (pk * pow2(149)),
            ;
            lemma_half_even_same_ratio((a * pk * 10) as nat, 1, pow2(149));
            assert(half_even((a * pk * 10) as nat, 1) == a * pk * 10);
        }
        ((a as u128) * power(k), 0)
    } else {
        let k: u32 = 149 - e;
        proof {
            lemma_pow2_adds(k as nat, e as nat);
            lemma_pow2_pos(k as nat);
            lemma_pow2_pos(e as nat);
            let pe: nat = pow2(e as nat);
            assert(n * 10 == (a as nat * 10) * pe) by (nonlinear_arith)
                requires
                    n == a * pe,
            ;
            lemma_half_even_same_ratio(a as nat * 10, pow2(k as nat), pe);
        }
        if k >= 40 {
            proof {
                lemma_pow2_monotone(40, k as nat);
                lemma_half_even_bounds(a as nat * 10, pow2(k as nat), 0);
            }
            (0, 0)
        } else {
            let tenths: u128 = divide_half_even((a as u128) * 10, power(k));
            (tenths / 10, tenths % 10)
        }
    }
}

/// A number with one digit after the point.
pub fn one_decimal_text(x: Single) -> (r: String)
    ensures
        r@ == one_decimal(x),
{
    let m: u32 = x.size();
    if m > INFINITE {
        return "NaN".to_owned();
    }
    let mut out: String = String::new();
    if x.is_negative() {
        out.append("-");
    }
    if m == INFINITE {
        out.append("inf");
    } else {
        let (whole, tenth) = split_tenths(x);
        append_decimal(&mut out, whole);
        out.append(".");
        append_decimal(&mut out, tenth);
    }
    out
}

/// The number that digits stand for.
pub open spec fn number(digits: Seq<char>) -> nat
    decreases digits.len(),
{
    if digits.len() == 0 {
        0
    } else {
        number(digits.drop_last()) * 10 + (digits.last() as nat - '0' as nat) as nat
    }
}

/// A number in decimal notation is made of digits, does not begin with a zero unless it is zero,
/// and reads back as the number.
pub proof fn decimals_read_back(n: nat)
    ensures
        number(decimal(n)) == n,
        decimal(n).len() > 0,
        forall|i: int| 0 <= i < decimal(n).len() ==> '0' <= #[trigger] decimal(n)[i] <= '9',
        n > 0 ==> decimal(n)[0] != '0',
        n == 0 ==> decimal(n) == seq!['0'],
    decreases n,
{
    let s: Seq<char> = decimal(n);
    let d: char = digit(n % 10);
    assert(d as nat == '0' as nat + n % 10);
    if n < 10 {
        assert(s.drop_last() =~= Seq::<char>::empty());
        assert(number(Seq::<char>::empty()) == 0);
        assert(number(s) == n);
        assert(n == 0 ==> s =~= seq!['0']);
    } else {
        decimals_read_back(n / 10);
        let front: Seq<char> = decimal(n / 10);
        assert(s.drop_last() =~= front);
        assert forall|i: int| 0 <= i < s.len() implies '0' <= #[trigger] s[i] <= '9' by {
            if i < front.len() {
                assert(s[i] == front[i]);
            }
        }
        assert(s[0] == front[0]);
    }
}

} // verus!
