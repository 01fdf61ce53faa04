//! Byte counts for people.

use crate::number;
use crate::text;
use vstd::prelude::*;

verus! {

/// A byte count that is shown with the largest unit up to PB that it reaches.
#[derive(Debug, Clone, Copy, PartialEq, Eq, Structural)]
pub struct HumanBytes(pub u64);

/// How often the value can be divided by 1024, `limit` times at most, before it is below 1024.
pub open spec fn magnitude(value: nat, limit: nat) -> nat
    decreases limit,
{
    if limit > 0 && value >= 1024 {
        1 + magnitude(value / 1024, (limit - 1) as nat)
    } else {
        0
    }
}

/// 1024 to the power `k`.
pub open spec fn kibi_power(k: nat) -> nat
    decreases k,
{
    if k == 0 {
        1
    } else {
        1024 * kibi_power((k - 1) as nat)
    }
}

/// The unit, with the space before it, that stands for 1024 to the power `k`.
pub open spec fn unit_of(k: nat) -> Seq<char> {
    if k == 0 {
        " B"@
    } else if k == 1 {
        " KB"@
    } else if k == 2 {
        " MB"@
    } else if k == 3 {
        " GB"@
    } else if k == 4 {
        " TB"@
    } else {
        " PB"@
    }
}

/// A number of hundredths, as a decimal with two places.
pub open spec fn fixed2(hundredths: nat) -> Seq<char> {
    number::decimal(hundredths / 100) + seq![
        '.',
        number::digit((hundredths / 10 % 10) as int),
        number::digit((hundredths % 10) as int),
    ]
}

/// The floating-point value divided by 1024 to the power `k`, with two places, and its unit.
pub open spec fn scaled(value: int, k: nat) -> Seq<char> {
    fixed2(number::nearest(100 * value, kibi_power(k) as int) as nat) + unit_of(k)
}

/// A byte count with the largest unit up to PB that it reaches.
pub open spec fn human(bytes: u64) -> Seq<char> {
    let value = number::double_of(bytes as nat);
    let k = magnitude(value as nat, 5);
    if k == 0 {
        number::decimal(bytes as nat) + unit_of(0)
    } else {
        scaled(value, k)
    }
}

/// A byte count with the largest unit up to GB that it reaches.
pub open spec fn sized(bytes: u64) -> Seq<char> {
    let value = number::double_of(bytes as nat);
    let k = magnitude(value as nat, 3);
    if k == 0 {
        number::decimal(bytes as nat) + unit_of(0)
    } else {
        scaled(value, k)
    }
}

/// The unit, with the space before it, that stands for 1024 to the power `k`.
fn unit_text(k: u32) -> (res: Vec<char>)
    ensures
        res@ == unit_of(k as nat),
{
    let s: &str = match k {
        0 => " B",
        1 => " KB",
        2 => " MB",
        3 => " GB",
        4 => " TB",
        _ => " PB",
    };
    text::chars_of(s)
}

proof fn lemma_small_double(n: nat)
    requires
        n < 0x20_0000_0000_0000,
    ensures
        number::double_of(n) == n,
{
    assert(number::spacing(n) == 1);
    assert(n as int / 1 == n && n as int % 1 == 0);
    assert(number::nearest(n as int, 1) * 1 == n) by (nonlinear_arith)
        requires
            number::nearest(n as int, 1) == n,
    ;
}

/// Renders a byte count with at most `limit` divisions by 1024.
fn render(bytes: u64, limit: u32) -> (res: Vec<char>)
    requires
        limit <= 5,
    ensures
        res@ == {
            let value = number::double_of(bytes as nat);
            let k = magnitude(value as nat, limit as nat);
            if k == 0 {
                number::decimal(bytes as nat) + unit_of(0)
            } else {
                scaled(value, k)
            }
        },
{
    let value = number::to_double(bytes);
    let mut k: u32 = 0;
    let mut divisor: u128 = 1;
    let mut rest: u128 = value;
    while k < limit && rest >= 1024
        invariant
            k <= limit <= 5,
            divisor == kibi_power(k as nat),
            1 <= divisor,
            k <= 1 ==> divisor <= 1024,
            k <= 2 ==> divisor <= 0x10_0000,
            k <= 3 ==> divisor <= 0x4000_0000,
            k <= 4 ==> divisor <= 0x100_0000_0000,
            divisor <= 0x4_0000_0000_0000,
            k + magnitude(rest as nat, (limit - k) as nat) == magnitude(
                value as nat,
                limit as nat,
            ),
        decreases limit - k,
    {
        k = k + 1;
        divisor = divisor * 1024;
        rest = rest / 1024;
    }
    let mut out: Vec<char>;
    if k == 0 {
        out = number::to_decimal(bytes as u128);
    } else {
        let hundredths = number::div_nearest(100 * value, divisor);
        out = number::to_decimal(hundredths / 100);
        out.push('.');
        out.push(number::digit_char((hundredths / 10 % 10) as u8));
        out.push(number::digit_char((hundredths % 10) as u8));
        proof {
            assert(out@ =~= fixed2(hundredths as nat));
        }
    }
    let mut unit = unit_text(k);
    out.append(&mut unit);
    out
}

impl HumanBytes {
    /// The byte count with the largest unit up to PB that it reaches, two places behind the point.
    pub fn to_string(&self) -> (res: String)
        ensures
            res@ == human(self.0),
    {
        let v = render(self.0, 5);
        text::string_of(&v)
    }
}

/// A byte count with the largest unit up to GB that it reaches, two places behind the point.
pub fn format_size(bytes: u64) -> (res: String)
    ensures
        res@ == sized(bytes),
{
    let v = render(bytes, 3);
    text::string_of(&v)
}

/// Below one terabyte both renderings of a byte count agree.
pub proof fn law_renderings_agree_below_a_terabyte(bytes: u64)
    requires
        bytes < 0x100_0000_0000,
    ensures
        sized(bytes) == human(bytes),
{
    lemma_small_double(bytes as nat);
    reveal_with_fuel(magnitude, 5);
}

/// Below 1024 bytes the count is shown as it is.
pub proof fn law_small_counts_are_exact(bytes: u64)
    requires
        bytes < 1024,
    ensures
        human(bytes) == number::decimal(bytes as nat) + " B"@,
        sized(bytes) == number::decimal(bytes as nat) + " B"@,
{
    lemma_small_double(bytes as nat);
}

/// A byte count of at least one unit and less than the next, which is 1024 times as large, is shown in
/// that unit, in hundredths that are nearest to it.
pub proof fn law_counts_are_shown_in_their_unit(bytes: u64, unit: Seq<char>, size: int)
    requires
        (unit == " KB"@ && size == 0x400) || (unit == " MB"@ && size == 0x10_0000) || (unit == " GB"@
            && size == 0x4000_0000) || (unit == " TB"@ && size == 0x100_0000_0000) || (unit == " PB"@
            && size == 0x4_0000_0000_0000),
        size <= bytes,
        bytes < 0x20_0000_0000_0000,
        unit == " PB"@ || bytes < 1024 * size,
    ensures
        exists|h: int|
            {
                &&& -size <= 2 * (h * size - 100 * bytes) <= size
                &&& #[trigger] human(bytes) == #[trigger] number::decimal((h / 100) as nat) + seq![
                    '.',
                    number::digit(h / 10 % 10),
                    number::digit(h % 10),
                ] + unit
            },
{
    reveal_strlit(" KB");
    reveal_strlit(" MB");
    reveal_strlit(" GB");
    reveal_strlit(" TB");
    reveal_strlit(" PB");
    assert(" KB"@[1] == 'K' && " MB"@[1] == 'M' && " GB"@[1] == 'G' && " TB"@[1] == 'T'
        && " PB"@[1] == 'P');
    lemma_small_double(bytes as nat);
    reveal_with_fuel(magnitude, 6);
    reveal_with_fuel(kibi_power, 6);
    let h = number::nearest(100 * bytes, size);
    number::law_rounding_goes_to_the_nearest(100 * bytes, size);
    assert(h >= 0) by (nonlinear_arith)
        requires
            -size <= 2 * (h * size - 100 * bytes),
            size > 0,
            bytes >= size,
    ;
    let k: nat = if size == 0x400 {
        1
    } else if size == 0x10_0000 {
        2
    } else if size == 0x4000_0000 {
        3
    } else if size == 0x100_0000_0000 {
        4
    } else {
        5
    };
    let b = bytes as nat;
    let b1 = b / 1024;
    let b2 = b1 / 1024;
    let b3 = b2 / 1024;
    let b4 = b3 / 1024;
    assert(magnitude(b4, 1) == if b4 >= 1024 {
        1nat
    } else {
        0
    });
    assert(magnitude(b3, 2) == if b3 >= 1024 {
        1 + magnitude(b4, 1)
    } else {
        0
    });
    assert(magnitude(b2, 3) == if b2 >= 1024 {
        1 + magnitude(b3, 2)
    } else {
        0
    });
    assert(magnitude(b1, 4) == if b1 >= 1024 {
        1 + magnitude(b2, 3)
    } else {
        0
    });
    assert(magnitude(b, 5) == 1 + magnitude(b1, 4));
    assert(kibi_power(k) == size);
    assert(unit_of(k) == unit);
    assert(magnitude(b, 5) == k);
    assert(human(bytes) == scaled(bytes as int, k));
    assert(human(bytes) == fixed2(h as nat) + unit);
    assert(human(bytes) == number::decimal((h / 100) as nat) + seq![
        '.',
        number::digit(h / 10 % 10),
        number::digit(h % 10),
    ] + unit);
}

} // verus!
