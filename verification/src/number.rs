//! Numbers in decimal, and the rounding of binary floating point on integers.

use vstd::prelude::*;

verus! {

/// The character of a decimal digit.
pub open spec fn digit(d: int) -> char {
    (48 + d) as char
}

/// Whether the character is a decimal digit.
pub open spec fn is_digit(c: char) -> bool {
    '0' <= c <= '9'
}

/// The value of a digit character.
pub open spec fn digit_value(c: char) -> int {
    c as int - 48
}

/// The number in decimal, without leading zeros.
pub open spec fn decimal(n: nat) -> Seq<char>
    decreases n,
{
    if n < 10 {
        seq![digit(n as int)]
    } else {
        decimal(n / 10).push(digit((n % 10) as int))
    }
}

/// The text consists of digits alone.
pub open spec fn all_digits(s: Seq<char>) -> bool {
    forall|i: int| 0 <= i < s.len() ==> is_digit(#[trigger] s[i])
}

/// The number that the digits stand for.
pub open spec fn value_of(s: Seq<char>) -> int
    decreases s.len(),
{
    if s.len() == 0 {
        0
    } else {
        value_of(s.drop_last()) * 10 + digit_value(s.last())
    }
}

/// The digits without a plus sign before them.
pub open spec fn without_plus(s: Seq<char>) -> Seq<char> {
    if s.len() > 0 && s[0] == '+' {
        s.skip(1)
    } else {
        s
    }
}

/// The number that a text stands for: digits, a plus sign before them or not, that fit in 64 bits.
pub open spec fn u64_of(s: Seq<char>) -> Option<u64> {
    let d = without_plus(s);
    if d.len() > 0 && all_digits(d) && value_of(d) <= u64::MAX {
        Some(value_of(d) as u64)
    } else {
        None
    }
}

/// Numbers written in decimal are read back as they were.
pub proof fn law_decimal_reads_back(n: nat)
    ensures
        decimal(n).len() > 0,
        all_digits(decimal(n)),
        value_of(decimal(n)) == n,
        n <= u64::MAX ==> u64_of(decimal(n)) == Some(n as u64),
    decreases n,
{
    if n < 10 {
        assert(decimal(n).drop_last() =~= Seq::empty());
        assert(decimal(n).last() == digit(n as int));
        assert(value_of(decimal(n).drop_last()) == 0);
    } else {
        law_decimal_reads_back(n / 10);
        assert(decimal(n).drop_last() =~= decimal(n / 10));
        assert(decimal(n).last() == digit((n % 10) as int));
    }
    assert(is_digit(decimal(n)[0]));
}

/// The character of a decimal digit.
pub fn digit_char(d: u8) -> (res: char)
    requires
        d < 10,
    ensures
        res == digit(d as int),
{
    (48 + d) as char
}

/// The number in decimal, without leading zeros.
pub fn to_decimal(n: u128) -> (res: Vec<char>)
    ensures
        res@ == decimal(n as nat),
    decreases n,
{
    if n < 10 {
        let mut v: Vec<char> = Vec::new();
        v.push(digit_char(n as u8));
        assert(v@ =~= decimal(n as nat));
        v
    } else {
        let mut v = to_decimal(n / 10);
        v.push(digit_char((n % 10) as u8));
        v
    }
}

/// The first digits stand for no more than all of them do.
pub proof fn lemma_value_monotone(s: Seq<char>, n: int)
    requires
        all_digits(s),
        0 <= n <= s.len(),
    ensures
        0 <= value_of(s.take(n)) <= value_of(s),
    decreases s.len(), s.len() - n,
{
    if n == s.len() {
        assert(s.take(n) =~= s);
        if s.len() > 0 {
            let d = s.drop_last();
            assert forall|i: int| 0 <= i < d.len() implies is_digit(#[trigger] d[i]) by {
                assert(d[i] == s[i]);
            }
            lemma_value_monotone(d, d.len() as int);
            assert(d.take(d.len() as int) =~= d);
            assert(is_digit(s[s.len() - 1]));
        }
    } else {
        let d = s.drop_last();
        assert forall|i: int| 0 <= i < d.len() implies is_digit(#[trigger] d[i]) by {
            assert(d[i] == s[i]);
        }
        lemma_value_monotone(d, n);
        assert(d.take(n) =~= s.take(n));
        assert(is_digit(s[s.len() - 1]));
    }
}

/// Reads digits, a plus sign before them or not, as a number of 64 bits.
pub fn parse_u64(s: &Vec<char>) -> (res: Option<u64>)
    ensures
        res == u64_of(s@),
{
    let from: usize = if s.len() > 0 && s[0] == '+' {
        1
    } else {
        0
    };
    let ghost d = without_plus(s@);
    assert(d =~= s@.skip(from as int));
    if s.len() == from {
        return None;
    }
    let mut total: u64 = 0;
    let mut i: usize = from;
    assert(d.take(0) =~= Seq::empty());
    while i < s.len()
        invariant
            from <= i <= s@.len(),
            d == s@.skip(from as int),
            d == without_plus(s@),
            all_digits(d.take(i - from)),
            total == value_of(d.take(i - from)),
        decreases s@.len() - i,
    {
        let c = s[i];
        let ghost k = i - from;
        assert(d[k] == c);
        if c < '0' || c > '9' {
            assert(!is_digit(d[k]));
            return None;
        }
        let v: u64 = (c as u32 - 48) as u64;
        proof {
            assert(d.take(k + 1).drop_last() =~= d.take(k));
            assert(d.take(k + 1).last() == c);
            assert(value_of(d.take(k + 1)) == total * 10 + v);
        }
        if total > (u64::MAX - v) / 10 {
            proof {
                if all_digits(d) {
                    lemma_value_monotone(d, k + 1);
                }
            }
            return None;
        }
        total = total * 10 + v;
        proof {
            assert forall|j: int| 0 <= j < d.take(k + 1).len() implies is_digit(
                #[trigger] d.take(k + 1)[j],
            ) by {
                if j < k {
                    assert(d.take(k + 1)[j] == d.take(k)[j]);
                }
            }
        }
        i = i + 1;
    }
    assert(d.take(d.len() as int) =~= d);
    Some(total)
}

/// The whole number nearest to `n / d`; the even one where two are as near.
pub open spec fn nearest(n: int, d: int) -> int {
    let q = n / d;
    let r = n % d;
    if 2 * r < d || (2 * r == d && q % 2 == 0) {
        q
    } else {
        q + 1
    }
}

/// The distance of the 53-bit floating-point numbers at `n`.
pub open spec fn spacing(n: nat) -> nat
    decreases n,
{
    if n < 0x20_0000_0000_0000 {
        1
    } else {
        2 * spacing(n / 2)
    }
}

/// The floating-point number of 53 bits that is nearest to `n`; the even one where two are as near.
pub open spec fn double_of(n: nat) -> int {
    nearest(n as int, spacing(n) as int) * spacing(n)
}

proof fn lemma_spacing_positive(n: nat)
    ensures
        spacing(n) >= 1,
    decreases n,
{
    if n >= 0x20_0000_0000_0000 {
        lemma_spacing_positive(n / 2);
    }
}

/// The whole number nearest to `n / d`; the even one where two are as near.
pub fn div_nearest(n: u128, d: u128) -> (res: u128)
    requires
        d > 0,
        n <= u128::MAX / 4,
        d <= u128::MAX / 4,
    ensures
        res == nearest(n as int, d as int),
{
    let q = n / d;
    let r = n % d;
    proof {
        assert(q <= n) by (nonlinear_arith)
            requires
                q == n as int / d as int,
                d >= 1,
                n >= 0,
        ;
    }
    if 2 * r < d || (2 * r == d && q % 2 == 0) {
        q
    } else {
        q + 1
    }
}

/// The floating-point number of 53 bits that is nearest to `n`.
pub fn to_double(n: u64) -> (res: u128)
    ensures
        res == double_of(n as nat),
        res <= 0x1_0000_0000_0000_0000,
{
    let mut unit: u128 = 1;
    let mut rest: u64 = n;
    while rest >= 0x20_0000_0000_0000
        invariant
            rest <= n,
            1 <= unit,
            unit * rest <= n,
            unit * spacing(rest as nat) == spacing(n as nat),
        decreases rest,
    {
        proof {
            assert(unit <= n) by (nonlinear_arith)
                requires
                    unit * rest <= n,
                    rest >= 1,
                    unit >= 0,
            ;
            assert(unit * 2 * spacing((rest / 2) as nat) == unit * (2 * spacing(
                (rest / 2) as nat,
            ))) by (nonlinear_arith);
            assert(unit * 2 * (rest / 2) <= unit * rest) by (nonlinear_arith)
                requires
                    2 * (rest / 2) <= rest,
                    unit >= 0,
            ;
        }
        unit = unit * 2;
        rest = rest / 2;
    }
    proof {
        assert(spacing(rest as nat) == 1);
        assert(unit * 1 == unit) by (nonlinear_arith);
        lemma_double_bound(n, unit as nat);
    }
    div_nearest(n as u128, unit) * unit
}

proof fn lemma_spacing_small(n: nat)
    requires
        n <= u64::MAX,
    ensures
        1 <= spacing(n) <= 2048,
        0x1_0000_0000_0000_0000int % (spacing(n) as int) == 0,
{
    reveal_with_fuel(spacing, 13);
    assert(n / 2 / 2 / 2 / 2 / 2 / 2 / 2 / 2 / 2 / 2 / 2 < 0x20_0000_0000_0000);
    let u = spacing(n);
    assert(u == 1 || u == 2 || u == 4 || u == 8 || u == 16 || u == 32 || u == 64 || u == 128 || u
        == 256 || u == 512 || u == 1024 || u == 2048);
}

proof fn lemma_double_bound(n: u64, u: nat)
    requires
        u == spacing(n as nat),
    ensures
        1 <= u <= 2048,
        0 <= nearest(n as int, u as int) * u <= 0x1_0000_0000_0000_0000,
        nearest(n as int, u as int) * u == double_of(n as nat),
{
    lemma_spacing_small(n as nat);
    let m = 0x1_0000_0000_0000_0000int;
    let k = m / (u as int);
    let q = n as int / u as int;
    vstd::arithmetic::div_mod::lemma_fundamental_div_mod(m, u as int);
    vstd::arithmetic::div_mod::lemma_fundamental_div_mod(n as int, u as int);
    assert(m == u * k);
    assert(q < k) by (nonlinear_arith)
        requires
            u * q <= n,
            n < m,
            m == u * k,
            u >= 1,
    ;
    assert(0 <= q) by (nonlinear_arith)
        requires
            q == n as int / u as int,
            u >= 1,
            n >= 0,
    ;
    let x = nearest(n as int, u as int);
    assert(0 <= x <= k);
    assert(0 <= x * u <= k * u) by (nonlinear_arith)
        requires
            0 <= x <= k,
            u >= 1,
    ;
    assert(k * u == u * k) by (nonlinear_arith);
}

/// A digit more makes a number ten times as large and adds the digit; one that 64 bits do not hold is
/// none.
pub proof fn law_digits_count_by_tens(s: Seq<char>, c: char, d: int)
    requires
        s.len() > 0,
        all_digits(s),
        0 <= d <= 9,
        c as int == 48 + d,
    ensures
        ({
            let n = value_of(s);
            &&& n >= 0
            &&& u64_of(s) == if n <= 0xffff_ffff_ffff_ffff {
                Some(n as u64)
            } else {
                None
            }
            &&& u64_of(s.push(c)) == if 10 * n + d <= 0xffff_ffff_ffff_ffff {
                Some((10 * n + d) as u64)
            } else {
                None
            }
            &&& u64_of(seq!['+'] + s) == u64_of(s)
            &&& u64_of(seq![c]) == Some(d as u64)
        }),
{
    lemma_value_monotone(s, s.len() as int);
    assert(s.take(s.len() as int) =~= s);
    assert(is_digit(s[0]));
    let t = s.push(c);
    assert(t.drop_last() =~= s);
    assert(all_digits(t)) by {
        assert forall|i: int| 0 <= i < t.len() implies is_digit(#[trigger] t[i]) by {
            if i < s.len() {
                assert(t[i] == s[i]);
            }
        }
    }
    assert(t[0] == s[0]);
    assert((seq!['+'] + s).skip(1) =~= s);
    assert(seq![c].drop_last() =~= Seq::<char>::empty());
    assert(value_of(Seq::<char>::empty()) == 0);
}

/// A text with anything but digits in it, but for one plus sign at its start, is no number, and
/// neither is an empty one.
pub proof fn law_only_digits_are_numbers(s: Seq<char>, i: int)
    ensures
        0 <= i < s.len() && !('0' <= s[i] <= '9') && !(i == 0 && s[0] == '+') ==> u64_of(s) is None,
        u64_of(Seq::<char>::empty()) is None,
        u64_of(seq!['+']) is None,
{
    if 0 <= i < s.len() && !('0' <= s[i] <= '9') && !(i == 0 && s[0] == '+') {
        let d = without_plus(s);
        if s[0] == '+' {
            assert(d[i - 1] == s[i]);
        } else {
            assert(d[i] == s[i]);
        }
    }
    assert(seq!['+'].skip(1) =~= Seq::<char>::empty());
}

/// Decimal numbers have no zero before them, but for zero itself, and the last digit is what is left
/// over of tens.
pub proof fn law_decimals_end_with_their_ones(n: nat)
    ensures
        decimal(n).last() as int == 48 + n % 10,
        n >= 10 ==> decimal(n).drop_last() == decimal(n / 10),
        n < 10 ==> decimal(n).len() == 1,
{
    if n >= 10 {
        assert(decimal(n).drop_last() =~= decimal(n / 10));
    }
}

/// A fraction is rounded to a whole number that is nearest to it.
pub proof fn law_rounding_goes_to_the_nearest(n: int, d: int)
    requires
        n >= 0,
        d > 0,
    ensures
        -d <= 2 * (nearest(n, d) * d - n) <= d,
        2 * (nearest(n, d) * d - n) == d || 2 * (nearest(n, d) * d - n) == -d ==> nearest(n, d) % 2
            == 0,
{
    let q = n / d;
    let r = n % d;
    vstd::arithmetic::div_mod::lemma_fundamental_div_mod(n, d);
    assert((q + 1) * d == q * d + d && d * q == q * d) by (nonlinear_arith);
    assert(0 <= r < d) by (nonlinear_arith)
        requires
            r == n % d,
            d > 0,
    ;
}

} // verus!
