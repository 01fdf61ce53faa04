//! Decimal numbers, read as floating-point numbers of 53 bits and cut to whole ones.

use crate::number;
use vstd::arithmetic::div_mod::{
    lemma_div_denominator, lemma_fundamental_div_mod, lemma_fundamental_div_mod_converse,
};
use vstd::arithmetic::power2::{lemma_pow2_pos, lemma_pow2_unfold, pow2};
use vstd::prelude::*;

verus! {

/// 10 to the power `n`.
pub open spec fn ten(n: nat) -> nat
    decreases n,
{
    if n == 0 {
        1
    } else {
        10 * ten((n - 1) as nat)
    }
}

/// How often a fraction is doubled until it reaches 2 to the power 52.
pub open spec fn shift(num: nat, den: nat) -> nat
    decreases
            if num >= 0x10_0000_0000_0000 * den {
                0
            } else {
                0x10_0000_0000_0000 * den - num
            },
{
    if num == 0 || num >= 0x10_0000_0000_0000 * den {
        0
    } else {
        1 + shift(2 * num, den)
    }
}

/// The whole part of the floating-point number of 53 bits that is nearest to a fraction; the even one
/// where two are as near.
pub open spec fn double_floor(num: nat, den: nat) -> int {
    let n = num / den;
    if n >= 0x20_0000_0000_0000 {
        number::nearest(num as int, (den * number::spacing(n)) as int) * number::spacing(n)
    } else {
        let t = shift(num, den);
        number::nearest((num * pow2(t)) as int, den as int) / pow2(t) as int
    }
}

/// A number of 64 bits, the largest one where it is larger.
pub open spec fn saturated(n: int) -> u64 {
    if n <= u64::MAX {
        n as u64
    } else {
        u64::MAX
    }
}

/// The number that some digits stand for, the first one being the most significant.
pub open spec fn digits_value(f: Seq<u8>) -> nat
    decreases f.len(),
{
    if f.len() == 0 {
        0
    } else {
        f[0] as nat * ten((f.len() - 1) as nat) + digits_value(f.skip(1))
    }
}

/// Each number is a decimal digit.
pub open spec fn are_digits(f: Seq<u8>) -> bool {
    forall|i: int| 0 <= i < f.len() ==> (#[trigger] f[i]) < 10
}

/// A power of 10 is positive.
pub proof fn lemma_ten_positive(n: nat)
    ensures
        ten(n) >= 1,
    decreases n,
{
    if n > 0 {
        lemma_ten_positive((n - 1) as nat);
    }
}

/// Digits stand for less than one more digit does.
pub proof fn lemma_digits_bound(f: Seq<u8>)
    requires
        are_digits(f),
    ensures
        digits_value(f) < ten(f.len()),
    decreases f.len(),
{
    if f.len() > 0 {
        let r = f.skip(1);
        assert forall|i: int| 0 <= i < r.len() implies (#[trigger] r[i]) < 10 by {
            assert(r[i] == f[i + 1]);
        }
        lemma_digits_bound(r);
        let t = ten((f.len() - 1) as nat);
        assert(f[0] as nat * t <= 9 * t) by (nonlinear_arith)
            requires
                f[0] <= 9,
        ;
    }
}

/// Doubles a decimal fraction in place and gives the whole part.
fn double_fraction(f: &mut Vec<u8>) -> (res: u8)
    requires
        are_digits(old(f)@),
    ensures
        final(f)@.len() == old(f)@.len(),
        are_digits(final(f)@),
        res <= 1,
        2 * digits_value(old(f)@) == res * ten(old(f)@.len()) + digits_value(final(f)@),
{
    let ghost before = f@;
    let m: usize = f.len();
    let mut i: usize = m;
    let mut carry: u8 = 0;
    proof {
        assert(before.skip(m as int) =~= Seq::empty());
        assert(f@.skip(m as int) =~= Seq::empty());
    }
    while i > 0
        invariant
            i <= m,
            m == before.len(),
            f@.len() == m,
            are_digits(before),
            are_digits(f@),
            carry <= 1,
            forall|j: int| 0 <= j < i ==> f@[j] == before[j],
            2 * digits_value(before.skip(i as int)) == carry * ten((m - i) as nat) + digits_value(
                f@.skip(i as int),
            ),
        decreases i,
    {
        let ghost old_tail = f@.skip(i as int);
        let ghost t = ten((m - i) as nat);
        let ghost old_carry = carry as nat;
        i = i - 1;
        let d: u8 = f[i];
        let sum: u8 = 2 * d + carry;
        let digit: u8 = if sum >= 10 {
            sum - 10
        } else {
            sum
        };
        carry = if sum >= 10 {
            1
        } else {
            0
        };
        f.set(i, digit);
        proof {
            assert(before.skip(i as int).skip(1) =~= before.skip(i + 1));
            assert(before.skip(i as int)[0] == d);
            assert(f@.skip(i as int).skip(1) =~= old_tail);
            assert(f@.skip(i as int)[0] == digit);
            assert(ten((m - i) as nat) == 10 * t);
            let a = digits_value(before.skip(i + 1)) as int;
            let b = digits_value(old_tail) as int;
            assert(2 * (d * t + a) == carry * (10 * t) + (digit * t + b)) by (nonlinear_arith)
                requires
                    2 * a == old_carry * t + b,
                    2 * d + old_carry == 10 * carry + digit,
            ;
        }
    }
    proof {
        assert(before.skip(0) =~= before);
        assert(f@.skip(0) =~= f@);
    }
    carry
}

/// Whether all digits are zero.
fn all_zero(f: &Vec<u8>) -> (res: bool)
    requires
        are_digits(f@),
    ensures
        res == (digits_value(f@) == 0),
{
    let mut i: usize = f.len();
    proof {
        assert(f@.skip(i as int) =~= Seq::empty());
    }
    while i > 0
        invariant
            i <= f@.len(),
            are_digits(f@),
            digits_value(f@.skip(i as int)) == 0,
        decreases i,
    {
        i = i - 1;
        proof {
            assert(f@.skip(i as int).skip(1) =~= f@.skip(i + 1));
            assert(f@.skip(i as int)[0] == f@[i as int]);
            lemma_ten_positive((f@.len() - i - 1) as nat);
        }
        if f[i] != 0 {
            proof {
                let d = f@[i as int] as nat;
                let t = ten((f@.len() - i - 1) as nat);
                assert(d * t > 0) by (nonlinear_arith)
                    requires
                        d > 0,
                        t > 0,
                ;
                lemma_suffix_value(f@, i as int);
            }
            return false;
        }
        proof {
            let t = ten((f@.len() - i - 1) as nat);
            assert(0 * t == 0) by (nonlinear_arith);
        }
    }
    proof {
        assert(f@.skip(0) =~= f@);
    }
    true
}

/// The last digits stand for no more than all of them do.
proof fn lemma_suffix_value(f: Seq<u8>, i: int)
    requires
        0 <= i <= f.len(),
    ensures
        digits_value(f.skip(i)) <= digits_value(f),
    decreases i,
{
    if i == 0 {
        assert(f.skip(0) =~= f);
    } else {
        lemma_suffix_value(f, i - 1);
        assert(f.skip(i - 1).skip(1) =~= f.skip(i));
        let d = f.skip(i - 1)[0] as nat;
        let t = ten((f.len() - i) as nat);
        assert(d * t >= 0) by (nonlinear_arith)
            requires
                d >= 0,
                t >= 0,
        ;
    }
}

proof fn lemma_split(q: int, den: int, v: int)
    requires
        den > 0,
        0 <= v < den,
    ensures
        (q * den + v) / den == q,
        (q * den + v) % den == v,
{
    assert(q * den + v == den * q + v) by (nonlinear_arith);
    lemma_fundamental_div_mod_converse(q * den + v, den, q, v);
}

/// Doubles a number that is given as its whole part and a decimal fraction.
fn double_both(n: u128, f: &mut Vec<u8>) -> (res: u128)
    requires
        n < 0x4000_0000_0000_0000_0000_0000_0000_0000,
        are_digits(old(f)@),
    ensures
        final(f)@.len() == old(f)@.len(),
        are_digits(final(f)@),
        res == 2 * n || res == 2 * n + 1,
        res * ten(old(f)@.len()) + digits_value(final(f)@) == 2 * (n * ten(old(f)@.len())
            + digits_value(old(f)@)),
{
    let ghost den = ten(f@.len()) as int;
    let ghost v = digits_value(f@) as int;
    let c = double_fraction(f);
    proof {
        let w = digits_value(f@) as int;
        assert((2 * n + c) * den + w == 2 * (n * den + v)) by (nonlinear_arith)
            requires
                2 * v == c * den + w,
        ;
    }
    2 * n + c as u128
}

/// A whole part and a decimal fraction, as a fraction of whole numbers.
pub open spec fn numerator(n: nat, f: Seq<u8>) -> nat {
    n * ten(f.len()) + digits_value(f)
}

proof fn lemma_shift_step(num: nat, den: nat)
    requires
        num > 0,
        num < 0x10_0000_0000_0000 * den,
    ensures
        shift(num, den) == 1 + shift(2 * num, den),
        num * pow2(shift(num, den)) == (2 * num) * pow2(shift(2 * num, den)),
{
    let t = shift(2 * num, den);
    lemma_pow2_unfold((t + 1) as nat);
    assert(num * (2 * pow2(t)) == (2 * num) * pow2(t)) by (nonlinear_arith);
}

proof fn lemma_shift_bound(num: nat, den: nat)
    requires
        0 < num < 0x20_0000_0000_0000 * den,
    ensures
        num * pow2(shift(num, den)) < 0x20_0000_0000_0000 * den,
    decreases shift(num, den),
{
    if num < 0x10_0000_0000_0000 * den {
        lemma_shift_step(num, den);
        lemma_shift_bound(2 * num, den);
    } else {
        vstd::arithmetic::power2::lemma2_to64();
        assert(num * 1 == num) by (nonlinear_arith);
    }
}

/// What has to be doubled 64 times and more is less than one half.
proof fn lemma_tiny(num: nat, den: nat)
    requires
        den >= 1,
        0 < num < 0x20_0000_0000_0000 * den,
        shift(num, den) >= 64,
        num / den < 0x20_0000_0000_0000,
    ensures
        double_floor(num, den) == 0,
{
    let t = shift(num, den);
    lemma_shift_bound(num, den);
    let m = (num * pow2(t)) as int;
    let q = m / den as int;
    lemma_fundamental_div_mod(m, den as int);
    assert(0 <= q < 0x20_0000_0000_0000) by (nonlinear_arith)
        requires
            m == den as int * q + m % (den as int),
            0 <= m < 0x20_0000_0000_0000 * den,
            0 <= m % (den as int) < den,
            den >= 1,
    ;
    let x = number::nearest(m, den as int);
    vstd::arithmetic::power2::lemma2_to64();
    if t > 64 {
        vstd::arithmetic::power2::lemma_pow2_strictly_increases(64, t);
    }
    assert(0 <= x < pow2(t));
    vstd::arithmetic::div_mod::lemma_basic_div(x, pow2(t) as int);
}

/// The whole part of the floating-point number nearest to one below 2 to the power 53.
#[verifier::rlimit(40)]
fn small_floor(n: u64, fraction: Vec<u8>) -> (res: u64)
    requires
        n < 0x20_0000_0000_0000,
        are_digits(fraction@),
    ensures
        res == double_floor(numerator(n as nat, fraction@), ten(fraction@.len())),
{
    let ghost den = ten(fraction@.len());
    let ghost num = numerator(n as nat, fraction@);
    proof {
        lemma_ten_positive(fraction@.len());
        lemma_digits_bound(fraction@);
        lemma_split(n as int, den as int, digits_value(fraction@) as int);
        assert(num / den == n);
    }
    let mut f = fraction;
    if n == 0 && all_zero(&f) {
        proof {
            assert(0 * den == 0) by (nonlinear_arith);
            assert(num == 0);
            assert(0 * pow2(0) == 0) by (nonlinear_arith);
            lemma_split(0, den as int, 0);
            assert(0 * (den as int) + 0 == 0) by (nonlinear_arith);
            lemma_pow2_pos(0);
            vstd::arithmetic::power2::lemma2_to64();
        }
        return 0;
    }
    let mut q: u64 = n;
    let mut t: u32 = 0;
    let ghost mut cur = num;
    proof {
        if n > 0 {
            assert(n * den >= 1) by (nonlinear_arith)
                requires
                    n >= 1,
                    den >= 1,
            ;
        }
        vstd::arithmetic::power2::lemma2_to64();
        assert(num * 1 == num) by (nonlinear_arith);
        assert(n * den + digits_value(fraction@) < 0x20_0000_0000_0000 * den) by (nonlinear_arith)
            requires
                n + 1 <= 0x20_0000_0000_0000,
                digits_value(fraction@) < den,
        ;
    }
    while q < 0x10_0000_0000_0000
        invariant
            q < 0x20_0000_0000_0000,
            are_digits(f@),
            den == ten(f@.len()),
            den >= 1,
            cur == q * den + digits_value(f@),
            cur >= 1,
            t <= 64,
            t + shift(cur, den) == shift(num, den),
            cur * pow2(shift(cur, den)) == num * pow2(shift(num, den)),
            0 < num < 0x20_0000_0000_0000 * den,
            num / den == n,
            n < 0x20_0000_0000_0000,
            num == numerator(n as nat, fraction@),
            den == ten(fraction@.len()),
        decreases 64 - t,
    {
        proof {
            lemma_digits_bound(f@);
            assert(q * den + digits_value(f@) < 0x10_0000_0000_0000 * den) by (nonlinear_arith)
                requires
                    q + 1 <= 0x10_0000_0000_0000,
                    digits_value(f@) < den,
            ;
            lemma_shift_step(cur, den);
        }
        if t == 64 {
            proof {
                lemma_tiny(num, den);
            }
            return 0;
        }
        let next = double_both(q as u128, &mut f);
        q = next as u64;
        t = t + 1;
        proof {
            cur = 2 * cur;
        }
    }
    proof {
        assert(q * den >= 0x10_0000_0000_0000 * den) by (nonlinear_arith)
            requires
                q >= 0x10_0000_0000_0000,
                den >= 1,
        ;
        assert(shift(cur, den) == 0);
        vstd::arithmetic::power2::lemma2_to64();
        assert(cur * 1 == cur) by (nonlinear_arith);
        assert(num * pow2(shift(num, den)) == cur);
        lemma_digits_bound(f@);
        lemma_split(q as int, den as int, digits_value(f@) as int);
    }
    let ghost v = digits_value(f@);
    let c = double_fraction(&mut f);
    let rest_zero = all_zero(&f);
    let up = c == 1 && !(rest_zero && q % 2 == 0);
    let ghost rounded = number::nearest(cur as int, den as int);
    proof {
        let w = digits_value(f@);
        lemma_digits_bound(f@);
        assert(2 * v == c * den + w);
        if c == 0 {
            assert(0 * den == 0) by (nonlinear_arith);
        } else {
            assert(1 * den == den) by (nonlinear_arith);
        }
        assert(cur as int / den as int == q);
        assert(cur as int % den as int == v);
        assert(rounded == if up {
            q + 1
        } else {
            q as int
        });
    }
    let mut r: u64 = if up {
        q + 1
    } else {
        q
    };
    let mut k: u32 = 0;
    proof {
        vstd::arithmetic::power2::lemma2_to64();
        assert(rounded / 1 == rounded);
    }
    while k < t
        invariant
            k <= t <= 64,
            rounded >= 0,
            r as int == rounded / pow2(k as nat) as int,
        decreases t - k,
    {
        proof {
            lemma_pow2_pos(k as nat);
            lemma_pow2_unfold((k + 1) as nat);
            lemma_div_denominator(rounded, pow2(k as nat) as int, 2);
            assert(pow2(k as nat) as int * 2 == pow2((k + 1) as nat));
        }
        r = r / 2;
        k = k + 1;
    }
    r
}

proof fn lemma_spacing_fits(n: nat)
    ensures
        number::spacing(n) >= 1,
        n >= 0x20_0000_0000_0000 ==> number::spacing(n) >= 2 && number::spacing(n) % 2 == 0
            && number::spacing(n) * 0x10_0000_0000_0000 <= n,
    decreases n,
{
    if n >= 0x20_0000_0000_0000 {
        lemma_spacing_fits(n / 2);
        if n / 2 < 0x20_0000_0000_0000 {
            assert(number::spacing(n / 2) == 1);
        }
    }
}

/// The distance of the floating-point numbers of 53 bits at a number.
fn spacing_at(n: u128) -> (res: u128)
    ensures
        res == number::spacing(n as nat),
{
    let mut unit: u128 = 1;
    let mut rest: u128 = n;
    while rest >= 0x20_0000_0000_0000
        invariant
            rest <= n,
            1 <= unit,
            unit * rest <= n,
            unit * number::spacing(rest as nat) == number::spacing(n as nat),
        decreases rest,
    {
        proof {
            assert(2 * unit <= n) by (nonlinear_arith)
                requires
                    unit * rest <= n,
                    rest >= 2,
                    unit >= 0,
            ;
            assert(unit * 2 * number::spacing((rest / 2) as nat) == unit * (2 * number::spacing(
                (rest / 2) as nat,
            ))) by (nonlinear_arith);
            assert(unit * 2 * (rest / 2) <= unit * rest) by (nonlinear_arith)
                requires
                    2 * (rest / 2) <= rest,
                    unit >= 0,
            ;
        }
        unit = unit * 2;
        rest = rest / 2;
    }
    proof {
        assert(unit * 1 == unit) by (nonlinear_arith);
    }
    unit
}

/// The whole part of the floating-point number nearest to a number that is given as its whole part
/// and a decimal fraction.
#[verifier::rlimit(40)]
pub fn floor_of_double(n: u128, fraction: Vec<u8>) -> (res: u64)
    requires
        n < 0x4000_0000_0000_0000_0000_0000_0000_0000,
        are_digits(fraction@),
    ensures
        res == saturated(double_floor(numerator(n as nat, fraction@), ten(fraction@.len()))),
{
    if n < 0x20_0000_0000_0000 {
        return small_floor(n as u64, fraction);
    }
    let ghost den = ten(fraction@.len()) as int;
    let ghost v = digits_value(fraction@) as int;
    let ghost num = numerator(n as nat, fraction@) as int;
    let u = spacing_at(n);
    proof {
        lemma_ten_positive(fraction@.len());
        lemma_digits_bound(fraction@);
        lemma_split(n as int, den, v);
        lemma_spacing_fits(n as nat);
    }
    let a = n / u;
    let r = n % u;
    let h = u / 2;
    let whole = all_zero(&fraction);
    let up = r > h || (r == h && (!whole || a % 2 == 1));
    proof {
        lemma_fundamental_div_mod(n as int, u as int);
        let big = den * u;
        let rem = r * den + v;
        assert(num == a * big + rem) by (nonlinear_arith)
            requires
                num == n * den + v,
                n == u * a + r,
                big == den * u,
                rem == r * den + v,
        ;
        assert(0 <= rem < big) by (nonlinear_arith)
            requires
                0 <= r,
                r + 1 <= u,
                0 <= v < den,
                rem == r * den + v,
                big == den * u,
        ;
        lemma_split(a as int, big, rem);
        assert(r < h ==> 2 * rem < big) by (nonlinear_arith)
            requires
                rem == r * den + v,
                big == den * u,
                u == 2 * h,
                0 <= v < den,
        ;
        assert(r > h ==> 2 * rem > big) by (nonlinear_arith)
            requires
                rem == r * den + v,
                big == den * u,
                u == 2 * h,
                0 <= v < den,
        ;
        assert(r == h ==> 2 * rem == big + 2 * v) by (nonlinear_arith)
            requires
                rem == r * den + v,
                big == den * u,
                u == 2 * h,
        ;
        assert(number::nearest(num, big) == if up {
            a + 1
        } else {
            a as int
        });
        assert(a * u <= n) by (nonlinear_arith)
            requires
                n == u * a + r,
                r >= 0,
        ;
        assert((a + 1) * u == a * u + u) by (nonlinear_arith);
        assert(u <= n);
    }
    let res: u128 = if up {
        a * u + u
    } else {
        a * u
    };
    if res <= 0xffff_ffff_ffff_ffff {
        res as u64
    } else {
        0xffff_ffff_ffff_ffff
    }
}

/// The whole part of the floating-point number nearest to 2 to the power `s` times a number that is
/// given as its whole part and a decimal fraction.
pub fn scaled_floor(n: u128, fraction: Vec<u8>, s: u32) -> (res: u64)
    requires
        n < 0x100_0000_0000_0000_0000_0000,
        s <= 30,
        are_digits(fraction@),
    ensures
        res == saturated(
            double_floor(
                numerator(n as nat, fraction@) * pow2(s as nat),
                ten(fraction@.len()),
            ),
        ),
{
    let ghost den = ten(fraction@.len());
    let ghost num = numerator(n as nat, fraction@);
    let mut f = fraction;
    let mut m: u128 = n;
    let mut k: u32 = 0;
    proof {
        vstd::arithmetic::power2::lemma2_to64();
        assert(num * 1 == num) by (nonlinear_arith);
        assert(0x100_0000_0000_0000_0000_0000 * 1 == 0x100_0000_0000_0000_0000_0000);
    }
    while k < s
        invariant
            k <= s <= 30,
            are_digits(f@),
            den == ten(f@.len()),
            m * den + digits_value(f@) == num * pow2(k as nat),
            m < 0x100_0000_0000_0000_0000_0000 * pow2(k as nat),
        decreases s - k,
    {
        proof {
            lemma_pow2_unfold((k + 1) as nat);
            lemma_small_power(k as nat);
            assert(2 * (num * pow2(k as nat)) == num * (2 * pow2(k as nat))) by (nonlinear_arith);
        }
        m = double_both(m, &mut f);
        k = k + 1;
    }
    proof {
        lemma_small_power(s as nat);
    }
    floor_of_double(m, f)
}

proof fn lemma_small_power(k: nat)
    requires
        k <= 30,
    ensures
        1 <= pow2(k) <= 0x4000_0000,
{
    vstd::arithmetic::power2::lemma2_to64();
    lemma_pow2_pos(k);
    if k < 30 {
        vstd::arithmetic::power2::lemma_pow2_strictly_increases(k, 30);
    }
}

/// The whole part of the floating-point number nearest to a whole number times 10 to the power `e`,
/// times 2 to the power `s`.
pub open spec fn decimal_floor(value: nat, e: int, s: nat) -> int {
    if e >= 0 {
        double_floor(value * ten(e as nat) * pow2(s), 1)
    } else {
        double_floor(value * pow2(s), ten((-e) as nat))
    }
}

proof fn lemma_ten_add(a: nat, b: nat)
    ensures
        ten(a + b) == ten(a) * ten(b),
    decreases a,
{
    if a == 0 {
        assert(1 * ten(b) == ten(b)) by (nonlinear_arith);
    } else {
        lemma_ten_add((a - 1) as nat, b);
        let x = ten((a - 1) as nat);
        let y = ten(b);
        assert(10 * (x * y) == (10 * x) * y) by (nonlinear_arith);
    }
}

proof fn lemma_ten_monotone(a: nat, b: nat)
    requires
        a <= b,
    ensures
        ten(a) <= ten(b),
{
    lemma_ten_add(a, (b - a) as nat);
    lemma_ten_positive((b - a) as nat);
    let x = ten(a);
    let y = ten((b - a) as nat);
    assert(x * y >= x) by (nonlinear_arith)
        requires
            y >= 1,
            x >= 0,
    ;
}

proof fn lemma_ten_25()
    ensures
        ten(25) == 10_000_000_000_000_000_000_000_000,
        ten(21) == 1_000_000_000_000_000_000_000,
{
    reveal_with_fuel(ten, 26);
}

/// What reaches twice the largest number of 64 bits is cut to that.
proof fn lemma_large(num: nat, den: nat)
    requires
        den >= 1,
        num / den >= 0x2_0000_0000_0000_0000,
    ensures
        double_floor(num, den) > u64::MAX,
{
    let n = num / den;
    lemma_spacing_fits(n);
    let u = number::spacing(n);
    let big = (den * u) as int;
    assert(big >= 1) by (nonlinear_arith)
        requires
            den >= 1,
            u >= 1,
            big == den * u,
    ;
    let q = num as int / big;
    vstd::arithmetic::div_mod::lemma_div_denominator(num as int, den as int, u as int);
    assert(q == n as int / u as int);
    lemma_fundamental_div_mod(n as int, u as int);
    let x = number::nearest(num as int, big);
    assert(q * u > n - u) by (nonlinear_arith)
        requires
            n == u * q + n as int % u as int,
            (n as int % u as int) < u,
    ;
    assert(x * u >= q * u) by (nonlinear_arith)
        requires
            x >= q,
            u >= 1,
    ;
}

proof fn lemma_shift_reaches(num: nat, den: nat)
    requires
        num > 0,
    ensures
        num * pow2(shift(num, den)) >= 0x10_0000_0000_0000 * den,
    decreases shift(num, den),
{
    if num < 0x10_0000_0000_0000 * den {
        lemma_shift_step(num, den);
        lemma_shift_reaches(2 * num, den);
    } else {
        vstd::arithmetic::power2::lemma2_to64();
        assert(num * 1 == num) by (nonlinear_arith);
    }
}

/// What is below one half is cut to nothing.
proof fn lemma_below_half(num: nat, den: nat)
    requires
        2 * num < den,
    ensures
        double_floor(num, den) == 0,
{
    vstd::arithmetic::div_mod::lemma_basic_div(num as int, den as int);
    vstd::arithmetic::power2::lemma2_to64();
    if num == 0 {
        assert(0 * pow2(0) == 0) by (nonlinear_arith);
        vstd::arithmetic::div_mod::lemma_small_mod(0, den);
    } else {
        let t = shift(num, den);
        let p = pow2(t);
        lemma_shift_reaches(num, den);
        lemma_shift_bound(num, den);
        assert(p > 0x20_0000_0000_0000) by (nonlinear_arith)
            requires
                num * p >= 0x10_0000_0000_0000 * den,
                2 * num < den,
                num > 0,
        ;
        let m = (num * p) as int;
        let q = m / den as int;
        lemma_fundamental_div_mod(m, den as int);
        assert(0 <= q < 0x20_0000_0000_0000) by (nonlinear_arith)
            requires
                m == den as int * q + m % (den as int),
                0 <= m < 0x20_0000_0000_0000 * den,
                0 <= m % (den as int) < den,
                den >= 1,
        ;
        let x = number::nearest(m, den as int);
        assert(0 <= x < p);
        vstd::arithmetic::div_mod::lemma_basic_div(x, p as int);
    }
}

/// A number with more than 25 digits before its point is cut to the largest of 64 bits.
pub proof fn lemma_many_digits(value: nat, digits: nat, e: int, s: nat)
    requires
        digits >= 1,
        value >= ten((digits - 1) as nat),
        digits + e > 25,
        s <= 30,
    ensures
        decimal_floor(value, e, s) > u64::MAX,
{
    lemma_ten_25();
    lemma_small_power(s);
    let p = pow2(s);
    if e >= 0 {
        let t = ten(e as nat);
        lemma_ten_positive(e as nat);
        lemma_ten_add((digits - 1) as nat, e as nat);
        lemma_ten_monotone(25, (digits - 1 + e) as nat);
        let low = ten((digits - 1) as nat);
        assert(value * t >= low * t) by (nonlinear_arith)
            requires
                value >= low,
                t >= 0,
        ;
        assert(value * t * p >= value * t) by (nonlinear_arith)
            requires
                p >= 1,
                value * t >= 0,
        ;
        lemma_large(value * t * p, 1);
    } else {
        let den = ten((-e) as nat);
        lemma_ten_positive((-e) as nat);
        let k = (digits - 1 + e) as nat;
        lemma_ten_add(k, (-e) as nat);
        lemma_ten_monotone(25, k);
        let num = value * p;
        assert(num >= value) by (nonlinear_arith)
            requires
                p >= 1,
                num == value * p,
                value >= 0,
        ;
        assert(num >= ten(k) * den);
        let q = num as int / den as int;
        lemma_fundamental_div_mod(num as int, den as int);
        assert(q >= ten(k)) by (nonlinear_arith)
            requires
                num == den as int * q + num as int % (den as int),
                num as int % (den as int) < den,
                num >= ten(k) * den,
                den >= 1,
        ;
        lemma_large(num, den);
    }
}

/// A number with more than 20 zeros behind its point is cut to nothing.
pub proof fn lemma_many_zeros(value: nat, digits: nat, e: int, s: nat)
    requires
        value < ten(digits),
        digits + e < -20,
        s <= 30,
    ensures
        decimal_floor(value, e, s) == 0,
{
    lemma_ten_25();
    lemma_small_power(s);
    let p = pow2(s);
    let k = (-(digits + e)) as nat;
    lemma_ten_add(digits, k);
    lemma_ten_monotone(21, k);
    let d = ten(digits);
    let t = ten(k);
    assert(2 * (value * p) < d * t) by (nonlinear_arith)
        requires
            value < d,
            0 <= value,
            1 <= p <= 0x4000_0000,
            t >= 1_000_000_000_000_000_000_000,
    ;
    lemma_below_half(value * p, ten((-e) as nat));
}

/// Nothing stays nothing.
pub proof fn lemma_nothing(e: int, s: nat)
    ensures
        decimal_floor(0, e, s) == 0,
{
    if e >= 0 {
        let t = ten(e as nat);
        let p = pow2(s);
        assert(0 * t * p == 0) by (nonlinear_arith);
        lemma_below_half(0, 1);
    } else {
        let p = pow2(s);
        assert(0 * p == 0) by (nonlinear_arith);
        lemma_ten_positive((-e) as nat);
        lemma_below_half(0, ten((-e) as nat));
    }
}

/// Digits behind digits.
pub proof fn lemma_digits_concat(a: Seq<u8>, b: Seq<u8>)
    ensures
        digits_value(a + b) == digits_value(a) * ten(b.len()) + digits_value(b),
    decreases a.len(),
{
    if a.len() == 0 {
        assert(a + b =~= b);
        let t = ten(b.len());
        assert(0 * t == 0) by (nonlinear_arith);
    } else {
        assert((a + b).skip(1) =~= a.skip(1) + b);
        lemma_digits_concat(a.skip(1), b);
        lemma_ten_add((a.len() - 1) as nat, b.len());
        let d = a[0] as nat;
        let x = ten((a.len() - 1) as nat);
        let y = ten(b.len());
        let v = digits_value(a.skip(1));
        assert((d * x + v) * y == d * (x * y) + v * y) by (nonlinear_arith);
    }
}

/// The number that some digits stand for, where there are 25 of them at most.
fn digits_number(f: &Vec<u8>) -> (res: u128)
    requires
        are_digits(f@),
        f@.len() <= 25,
    ensures
        res == digits_value(f@),
        res < 0x100_0000_0000_0000_0000_0000,
{
    let mut n: u128 = 0;
    let mut i: usize = 0;
    proof {
        assert(f@.take(0) =~= Seq::empty());
        lemma_ten_25();
    }
    while i < f.len()
        invariant
            i <= f@.len() <= 25,
            are_digits(f@),
            n == digits_value(f@.take(i as int)),
            ten(25) == 10_000_000_000_000_000_000_000_000,
        decreases f@.len() - i,
    {
        proof {
            let a = f@.take(i as int);
            let b = seq![f@[i as int]];
            assert(f@.take(i + 1) =~= a + b);
            lemma_digits_concat(a, b);
            assert(b.skip(1) =~= Seq::empty());
            assert(digits_value(b) == f@[i as int] as nat * ten(0) + digits_value(b.skip(1)));
            let d = f@[i as int] as nat;
            assert(d * ten(0) == d) by (nonlinear_arith)
                requires
                    ten(0) == 1,
            ;
            assert(digits_value(b) == d);
            assert(ten(1) == 10 * ten(0));
            assert(are_digits(a + b));
            lemma_digits_bound(f@.take(i + 1));
            lemma_ten_monotone((i + 1) as nat, 25);
        }
        n = n * 10 + f[i] as u128;
        i = i + 1;
    }
    proof {
        assert(f@.take(i as int) =~= f@);
        lemma_digits_bound(f@);
        lemma_ten_monotone(f@.len(), 25);
    }
    n
}

/// The whole part of the floating-point number nearest to a decimal number, times 2 to the power
/// `s`, cut to 64 bits.
#[verifier::rlimit(60)]
pub fn floor_of_decimal(digits: &Vec<u8>, e: i128, s: u32) -> (res: u64)
    requires
        are_digits(digits@),
        -0x4_0000_0000_0000_0000_0000 <= e <= 0x4_0000_0000_0000_0000_0000,
        s <= 30,
    ensures
        res == saturated(decimal_floor(digits_value(digits@), e as int, s as nat)),
{
    let mut z: usize = 0;
    proof {
        assert(digits@.skip(0) =~= digits@);
    }
    while z < digits.len() && digits[z] == 0
        invariant
            z <= digits@.len(),
            digits_value(digits@.skip(z as int)) == digits_value(digits@),
        decreases digits@.len() - z,
    {
        proof {
            let r = digits@.skip(z as int);
            assert(r.skip(1) =~= digits@.skip(z + 1));
            let t = ten((r.len() - 1) as nat);
            assert(0 * t == 0) by (nonlinear_arith);
        }
        z = z + 1;
    }
    let ghost rest = digits@.skip(z as int);
    let ghost value = digits_value(rest);
    if z == digits.len() {
        proof {
            assert(rest =~= Seq::empty());
            lemma_nothing(e as int, s as nat);
        }
        return 0;
    }
    let count: usize = digits.len() - z;
    let pos: i128 = count as i128 + e;
    proof {
        assert(are_digits(rest)) by {
            assert forall|i: int| 0 <= i < rest.len() implies (#[trigger] rest[i]) < 10 by {
                assert(rest[i] == digits@[z + i]);
            }
        }
        lemma_digits_bound(rest);
        let t = ten((count - 1) as nat);
        let d = rest[0] as nat;
        assert(d * t >= t) by (nonlinear_arith)
            requires
                d >= 1,
                t >= 0,
        ;
        assert(value >= t);
    }
    if pos > 25 {
        proof {
            lemma_many_digits(value, count as nat, e as int, s as nat);
        }
        return 0xffff_ffff_ffff_ffff;
    }
    if pos < -20 {
        proof {
            lemma_many_zeros(value, count as nat, e as int, s as nat);
        }
        return 0;
    }
    let mut whole: Vec<u8> = Vec::new();
    let mut fraction: Vec<u8> = Vec::new();
    if pos <= 0 {
        let zeros: usize = (-pos) as usize;
        let mut i: usize = 0;
        while i < zeros
            invariant
                i <= zeros,
                fraction@.len() == i,
                forall|k: int| 0 <= k < i ==> fraction@[k] == 0,
            decreases zeros - i,
        {
            fraction.push(0);
            i = i + 1;
        }
        let ghost lead = fraction@;
        i = z;
        proof {
            assert(digits@.subrange(z as int, z as int) =~= Seq::empty());
            assert(lead + Seq::empty() =~= lead);
        }
        while i < digits.len()
            invariant
                z <= i <= digits@.len(),
                fraction@ == lead + digits@.subrange(z as int, i as int),
            decreases digits@.len() - i,
        {
            fraction.push(digits[i]);
            proof {
                assert(fraction@ =~= lead + digits@.subrange(z as int, i + 1));
            }
            i = i + 1;
        }
        proof {
            assert(digits@.subrange(z as int, digits@.len() as int) =~= rest);
            assert(fraction@ == lead + rest);
            lemma_digits_concat(lead, rest);
            lemma_zeros_value(lead);
            let t = ten(rest.len());
            assert(0 * t == 0) by (nonlinear_arith);
            assert(are_digits(fraction@));
            let den = ten(fraction@.len());
            assert(0 * den == 0) by (nonlinear_arith);
            assert(numerator(0, fraction@) == value);
            assert(fraction@.len() == -e);
            lemma_ten_positive(0);
        }
        return scaled_floor(0, fraction, s);
    }
    let before: usize = pos as usize;
    let mut i: usize = 0;
    while i < before
        invariant
            i <= before <= 25,
            z <= digits@.len(),
            are_digits(digits@),
            whole@.len() == i,
            forall|k: int|
                0 <= k < i ==> (#[trigger] whole@[k]) == if z + k < digits@.len() {
                    digits@[z + k]
                } else {
                    0
                },
        decreases before - i,
    {
        let at: usize = z;
        if i < digits.len() - at {
            whole.push(digits[at + i]);
        } else {
            whole.push(0);
        }
        i = i + 1;
    }
    let mut j: usize = if before < count {
        z + before
    } else {
        digits.len()
    };
    let ghost from = j as int;
    proof {
        assert(digits@.subrange(from, from) =~= Seq::empty());
    }
    while j < digits.len()
        invariant
            from <= j <= digits@.len(),
            0 <= from,
            fraction@ == digits@.subrange(from, j as int),
        decreases digits@.len() - j,
    {
        fraction.push(digits[j]);
        proof {
            assert(fraction@ =~= digits@.subrange(from, j + 1));
        }
        j = j + 1;
    }
    proof {
        assert(are_digits(whole@));
        assert(are_digits(fraction@)) by {
            assert forall|k: int| 0 <= k < fraction@.len() implies (#[trigger] fraction@[k])
                < 10 by {
                assert(fraction@[k] == digits@[from + k]);
            }
        }
        if e >= 0 {
            let zeros = whole@.skip(count as int);
            assert(fraction@ =~= Seq::empty());
            assert(whole@ =~= rest + zeros);
            lemma_digits_concat(rest, zeros);
            lemma_zeros_value(zeros);
            assert(digits_value(whole@) == value * ten(e as nat));
            let n = digits_value(whole@);
            assert(n * 1 == n) by (nonlinear_arith);
            assert(numerator(n, fraction@) == n);
            assert(ten(fraction@.len()) == 1);
        } else {
            assert(whole@ + fraction@ =~= rest);
            lemma_digits_concat(whole@, fraction@);
            assert(numerator(digits_value(whole@), fraction@) == value);
            assert(fraction@.len() == -e);
        }
    }
    let n = digits_number(&whole);
    scaled_floor(n, fraction, s)
}

/// Zeros stand for nothing.
pub proof fn lemma_zeros_value(f: Seq<u8>)
    requires
        forall|i: int| 0 <= i < f.len() ==> f[i] == 0,
    ensures
        digits_value(f) == 0,
    decreases f.len(),
{
    if f.len() > 0 {
        let t = ten((f.len() - 1) as nat);
        assert(0 * t == 0) by (nonlinear_arith);
        lemma_zeros_value(f.skip(1));
    }
}

/// Digits that are not all zero stand for something.
pub proof fn lemma_nonzero_value(f: Seq<u8>, k: int)
    requires
        0 <= k < f.len(),
        f[k] != 0,
    ensures
        digits_value(f) >= 1,
{
    let r = f.skip(k);
    lemma_suffix_value(f, k);
    let t = ten((r.len() - 1) as nat);
    lemma_ten_positive((r.len() - 1) as nat);
    let d = r[0] as nat;
    assert(d * t >= 1) by (nonlinear_arith)
        requires
            d >= 1,
            t >= 1,
    ;
}

proof fn lemma_nearest_floor(m: int, d: int)
    requires
        m >= 0,
        d > 0,
    ensures
        number::nearest(m, d) == m / d || number::nearest(m, d) == m / d + 1,
        m % d == 0 ==> number::nearest(m, d) == m / d,
{
}

/// Below 2 to the power 53 a number is cut to its whole part, or to the next one where rounding reaches
/// it; a whole number stays as it is.
pub proof fn law_small_numbers_are_cut_to_whole_ones(num: nat, den: nat)
    requires
        den >= 1,
        num / den < 0x20_0000_0000_0000,
    ensures
        num / den <= double_floor(num, den) <= num / den + 1,
        den == 1 ==> double_floor(num, den) == num,
{
    let t = shift(num, den);
    let p = pow2(t) as int;
    lemma_pow2_pos(t);
    let m = num * p;
    assert(m >= 0) by (nonlinear_arith)
        requires
            m == num * p,
            p > 0,
            num >= 0,
    ;
    let d = den as int;
    lemma_nearest_floor(m, d);
    vstd::arithmetic::div_mod::lemma_div_denominator(m, d, p);
    vstd::arithmetic::div_mod::lemma_div_denominator(m, p, d);
    assert(d * p == p * d) by (nonlinear_arith);
    vstd::arithmetic::div_mod::lemma_div_by_multiple(num as int, p);
    assert(m / p == num);
    assert((m / d) / p == num as int / d);
    let q = m / d;
    vstd::arithmetic::div_mod::lemma_div_is_ordered(q, q + 1, p);
    vstd::arithmetic::div_mod::lemma_div_is_ordered(q + 1, q + p, p);
    vstd::arithmetic::div_mod::lemma_div_plus_one(q, p);
    assert((q + p) / p == q / p + 1);
    if den == 1 {
        assert(m % 1 == 0 && m / 1 == m);
    }
}

/// From 2 to the power 53 on, a number is rounded to one that is off by no more than its part of 2 to
/// the power 53.
pub proof fn law_large_numbers_are_rounded_to_53_bits(num: nat, den: nat)
    requires
        den >= 1,
        num / den >= 0x20_0000_0000_0000,
    ensures
        -(num as int) <= 0x20_0000_0000_0000 * (double_floor(num, den) * den - num) <= num,
{
    let n = num / den;
    let sp = number::spacing(n);
    lemma_spacing_fits(n);
    let d = (den * sp) as int;
    assert(d > 0) by (nonlinear_arith)
        requires
            d == den * sp,
            den >= 1,
            sp >= 1,
    ;
    let q = number::nearest(num as int, d);
    number::law_rounding_goes_to_the_nearest(num as int, d);
    assert((q * sp) * den == q * d) by (nonlinear_arith)
        requires
            d == den * sp,
    ;
    vstd::arithmetic::div_mod::lemma_fundamental_div_mod(num as int, den as int);
    assert(d * 0x10_0000_0000_0000 <= n * den) by (nonlinear_arith)
        requires
            d == den * sp,
            sp * 0x10_0000_0000_0000 <= n,
            den >= 1,
    ;
    assert(den * n == n * den) by (nonlinear_arith);
    assert(n * den <= num);
}

/// A number that 64 bits do not hold counts as the largest that they do.
pub proof fn law_numbers_end_with_64_bits(n: int)
    requires
        n >= 0,
    ensures
        saturated(n) <= n,
        n < 0x1_0000_0000_0000_0000 ==> saturated(n) == n,
        n >= 0x1_0000_0000_0000_0000 ==> saturated(n) == 0xffff_ffff_ffff_ffff,
{
}

} // verus!
