//! Speed limits as they are typed: `500K`, `2.5M`, `1G` or a plain number of bytes.

use crate::float;
use crate::number;
use crate::scan;
use crate::text;
use vstd::prelude::*;

verus! {

/// Why a text is no speed limit.
#[derive(Debug, Clone, Copy, PartialEq, Eq, Structural)]
pub enum SpeedError {
    /// What stands before the unit is not a number.
    BadNumber,
    /// Without a unit, the text is not a whole number of 64 bits.
    BadInteger,
}

/// A floating-point number in text.
pub enum FloatText {
    /// Not a number.
    Nan,
    /// Infinity, or minus infinity.
    Infinite(bool),
    /// Digits times a power of 10, with a minus sign or without.
    Finite { negative: bool, digits: Seq<char>, exp: int },
}

/// The text begins with a sign.
pub open spec fn has_sign(s: Seq<char>) -> bool {
    s.len() > 0 && (s[0] == '-' || s[0] == '+')
}

/// The text begins with a minus sign.
pub open spec fn is_negative(s: Seq<char>) -> bool {
    s.len() > 0 && s[0] == '-'
}

/// The text without its sign.
pub open spec fn unsigned_text(s: Seq<char>) -> Seq<char> {
    if has_sign(s) {
        s.skip(1)
    } else {
        s
    }
}

/// The exponent that a text stands for: digits, a sign before them or not.
pub open spec fn exponent_of(s: Seq<char>) -> Option<int> {
    let d = unsigned_text(s);
    if d.len() > 0 && number::all_digits(d) {
        Some(
            if is_negative(s) {
                -number::value_of(d)
            } else {
                number::value_of(d)
            },
        )
    } else {
        None
    }
}

/// What stands before the point.
pub open spec fn whole_part(s: Seq<char>) -> Seq<char> {
    text::before_first(s, '.')
}

/// What stands behind the point.
pub open spec fn fraction_part(s: Seq<char>) -> Seq<char> {
    match s.index_of_first('.') {
        Some(k) => s.skip(k + 1),
        None => Seq::empty(),
    }
}

/// What stands before the exponent.
pub open spec fn mantissa_of(s: Seq<char>) -> Seq<char> {
    match text::ascii_lower(s).index_of_first('e') {
        Some(k) => s.take(k),
        None => s,
    }
}

/// The exponent of a number: zero where it has none, and nothing where it is not one.
pub open spec fn exponent_in(s: Seq<char>) -> Option<int> {
    match text::ascii_lower(s).index_of_first('e') {
        Some(k) => exponent_of(s.skip(k + 1)),
        None => Some(0),
    }
}

/// The digits of a number, and the power of 10 that they are multiplied with: digits with a point
/// among them or not, and an exponent behind them or not.
pub open spec fn decimal_text(s: Seq<char>) -> Option<(Seq<char>, int)> {
    let whole = whole_part(mantissa_of(s));
    let fraction = fraction_part(mantissa_of(s));
    match exponent_in(s) {
        Some(e) => if number::all_digits(whole) && number::all_digits(fraction) && whole.len()
            + fraction.len() > 0 {
            Some((whole + fraction, e - fraction.len()))
        } else {
            None
        },
        None => None,
    }
}

/// The floating-point number that a text stands for.
pub open spec fn float_of(s: Seq<char>) -> Option<FloatText> {
    let body = unsigned_text(s);
    let low = text::ascii_lower(body);
    if low == "inf"@ || low == "infinity"@ {
        Some(FloatText::Infinite(is_negative(s)))
    } else if low == "nan"@ {
        Some(FloatText::Nan)
    } else {
        match decimal_text(body) {
            Some((digits, exp)) => Some(
                FloatText::Finite { negative: is_negative(s), digits, exp },
            ),
            None => None,
        }
    }
}

/// The whole number of bytes that a floating-point number of units of 2 to the power `s` stands for:
/// none for what is negative or no number, and 64 bits at most.
pub open spec fn bytes_of(f: FloatText, s: nat) -> u64 {
    match f {
        FloatText::Nan => 0,
        FloatText::Infinite(negative) => if negative {
            0
        } else {
            u64::MAX
        },
        FloatText::Finite { negative, digits, exp } => if negative {
            0
        } else {
            float::saturated(float::decimal_floor(number::value_of(digits) as nat, exp, s))
        },
    }
}

/// The speed that a text before a unit stands for.
pub open spec fn unit_speed(s: Seq<char>, shift: nat) -> Result<u64, SpeedError> {
    match float_of(s) {
        Some(f) => Ok(bytes_of(f, shift)),
        None => Err(SpeedError::BadNumber),
    }
}

/// The speed that a text in upper case stands for: a number before `K`, `M` or `G`, or a whole
/// number alone.
pub open spec fn speed_of(s: Seq<char>) -> Result<u64, SpeedError> {
    if s.len() > 0 && s.last() == 'K' {
        unit_speed(s.drop_last(), 10)
    } else if s.len() > 0 && s.last() == 'M' {
        unit_speed(s.drop_last(), 20)
    } else if s.len() > 0 && s.last() == 'G' {
        unit_speed(s.drop_last(), 30)
    } else {
        match number::u64_of(s) {
            Some(n) => Ok(n),
            None => Err(SpeedError::BadInteger),
        }
    }
}

/// Where an exponent counts as beyond all measure.
pub const HUGE_EXPONENT: u128 = 0x1_0000_0000_0000_0000_0000;

/// The number that digits stand for, no more than a limit; none where they are no digits.
fn limited_value(d: &Vec<char>) -> (res: Option<u128>)
    ensures
        match res {
            Some(n) => d@.len() > 0 && number::all_digits(d@) && (n == number::value_of(d@) || (n
                == HUGE_EXPONENT && number::value_of(d@) >= HUGE_EXPONENT)) && n <= HUGE_EXPONENT,
            None => d@.len() == 0 || !number::all_digits(d@),
        },
{
    if d.len() == 0 {
        return None;
    }
    let mut n: u128 = 0;
    let mut i: usize = 0;
    proof {
        assert(d@.take(0) =~= Seq::empty());
    }
    while i < d.len()
        invariant
            i <= d@.len(),
            number::all_digits(d@.take(i as int)),
            n <= HUGE_EXPONENT,
            n == number::value_of(d@.take(i as int)) || (n == HUGE_EXPONENT && number::value_of(
                d@.take(i as int),
            ) >= HUGE_EXPONENT),
        decreases d@.len() - i,
    {
        let c = d[i];
        if c < '0' || c > '9' {
            assert(!number::is_digit(d@[i as int]));
            return None;
        }
        let v: u128 = (c as u32 - 48) as u128;
        proof {
            assert(d@.take(i + 1).drop_last() =~= d@.take(i as int));
            assert(d@.take(i + 1).last() == c);
            assert forall|j: int| 0 <= j < d@.take(i + 1).len() implies number::is_digit(
                #[trigger] d@.take(i + 1)[j],
            ) by {
                if j < i {
                    assert(d@.take(i + 1)[j] == d@.take(i as int)[j]);
                }
            }
        }
        let next: u128 = n * 10 + v;
        n = if next >= HUGE_EXPONENT {
            HUGE_EXPONENT
        } else {
            next
        };
        i = i + 1;
    }
    proof {
        assert(d@.take(i as int) =~= d@);
    }
    Some(n)
}

/// The digits as numbers.
pub open spec fn digit_numbers(s: Seq<char>) -> Seq<u8> {
    s.map_values(|c: char| (c as u32 - 48) as u8)
}

proof fn lemma_digit_numbers(s: Seq<char>)
    requires
        number::all_digits(s),
    ensures
        float::are_digits(digit_numbers(s)),
        float::digits_value(digit_numbers(s)) == number::value_of(s),
        number::value_of(s) >= 0,
    decreases s.len(),
{
    let f = digit_numbers(s);
    assert forall|i: int| 0 <= i < f.len() implies (#[trigger] f[i]) < 10 by {
        assert(number::is_digit(s[i]));
    }
    if s.len() > 0 {
        let d = s.drop_last();
        assert forall|i: int| 0 <= i < d.len() implies number::is_digit(#[trigger] d[i]) by {
            assert(d[i] == s[i]);
        }
        lemma_digit_numbers(d);
        let last = seq![f.last()];
        assert(f =~= digit_numbers(d) + last);
        float::lemma_digits_concat(digit_numbers(d), last);
        assert(last.skip(1) =~= Seq::empty());
        let x = f.last() as nat;
        assert(x * float::ten(0) == x) by (nonlinear_arith)
            requires
                float::ten(0) == 1,
        ;
        assert(float::digits_value(last) == last[0] as nat * float::ten(0) + float::digits_value(
            last.skip(1),
        ));
        assert(float::digits_value(last) == x);
        assert(float::ten(1) == 10 * float::ten(0));
        assert(number::is_digit(s[s.len() - 1]));
    }
}

/// Appends digits as numbers; says whether they were all digits.
fn push_digits(out: &mut Vec<u8>, s: &Vec<char>) -> (res: bool)
    ensures
        res == number::all_digits(s@),
        res ==> final(out)@ == old(out)@ + digit_numbers(s@),
{
    let ghost before = out@;
    let mut i: usize = 0;
    proof {
        assert(before + digit_numbers(s@.take(0)) =~= before);
    }
    while i < s.len()
        invariant
            i <= s@.len(),
            number::all_digits(s@.take(i as int)),
            out@ == before + digit_numbers(s@.take(i as int)),
        decreases s@.len() - i,
    {
        let c = s[i];
        if c < '0' || c > '9' {
            assert(!number::is_digit(s@[i as int]));
            return false;
        }
        out.push((c as u32 - 48) as u8);
        proof {
            assert forall|j: int| 0 <= j < s@.take(i + 1).len() implies number::is_digit(
                #[trigger] s@.take(i + 1)[j],
            ) by {
                if j < i {
                    assert(s@.take(i + 1)[j] == s@.take(i as int)[j]);
                }
            }
            assert(out@ =~= before + digit_numbers(s@.take(i + 1)));
        }
        i = i + 1;
    }
    proof {
        assert(s@.take(i as int) =~= s@);
    }
    true
}

/// The text without its sign.
fn strip_sign(v: &Vec<char>) -> (res: Vec<char>)
    ensures
        res@ == unsigned_text(v@),
{
    let n = v.len();
    if n > 0 && (v[0] == '-' || v[0] == '+') {
        text::slice(v, 1, n)
    } else {
        let out = text::slice(v, 0, n);
        assert(out@ =~= v@);
        out
    }
}

/// An exponent of that size and sign; one that is beyond all measure may be larger.
pub open spec fn is_exponent(e: int, size: u128, negative: bool) -> bool {
    if size == HUGE_EXPONENT {
        if negative {
            e <= -HUGE_EXPONENT
        } else {
            e >= HUGE_EXPONENT
        }
    } else {
        size < HUGE_EXPONENT && e == if negative {
            -size
        } else {
            size as int
        }
    }
}

/// What stands before the exponent of a number, and the size and sign of that.
fn split_exponent(body: &Vec<char>) -> (res: Option<(Vec<char>, u128, bool)>)
    ensures
        match res {
            Some((mantissa, size, negative)) => mantissa@ == mantissa_of(body@) && exponent_in(
                body@,
            ) is Some && is_exponent(exponent_in(body@)->0, size, negative),
            None => exponent_in(body@) is None,
        },
{
    let low = text::to_ascii_lower(body);
    let n = body.len();
    match text::find_first(&low, 'e') {
        Some(k) => {
            let mantissa = text::slice(body, 0, k);
            assert(mantissa@ =~= body@.take(k as int));
            let tail = text::slice(body, k + 1, n);
            assert(tail@ =~= body@.skip(k + 1));
            let negative = tail.len() > 0 && tail[0] == '-';
            match limited_value(&strip_sign(&tail)) {
                Some(size) => Some((mantissa, size, negative)),
                None => None,
            }
        },
        None => {
            let mantissa = text::slice(body, 0, n);
            assert(mantissa@ =~= body@);
            Some((mantissa, 0, false))
        },
    }
}

/// What stands before the point of a number, and what behind it.
fn split_point(mantissa: &Vec<char>) -> (res: (Vec<char>, Vec<char>))
    ensures
        res.0@ == whole_part(mantissa@),
        res.1@ == fraction_part(mantissa@),
{
    let m = mantissa.len();
    match text::find_first(mantissa, '.') {
        Some(k) => {
            let a = text::slice(mantissa, 0, k);
            let b = text::slice(mantissa, k + 1, m);
            assert(a@ =~= whole_part(mantissa@));
            assert(b@ =~= fraction_part(mantissa@));
            (a, b)
        },
        None => {
            let a = text::slice(mantissa, 0, m);
            assert(a@ =~= whole_part(mantissa@));
            let b: Vec<char> = Vec::new();
            assert(b@ =~= fraction_part(mantissa@));
            (a, b)
        },
    }
}

/// What digits with an exponent beyond all measure are cut to.
fn extreme_bytes(digits: &Vec<u8>, negative: bool, s: u32) -> (res: u64)
    requires
        float::are_digits(digits@),
        s <= 30,
    ensures
        forall|e: int|
            (if negative {
                e <= -HUGE_EXPONENT
            } else {
                e >= HUGE_EXPONENT - usize::MAX
            }) ==> res == float::saturated(
                #[trigger] float::decimal_floor(float::digits_value(digits@), e, s as nat),
            ),
{
    let ghost value = float::digits_value(digits@);
    let mut k: usize = 0;
    while k < digits.len() && digits[k] == 0
        invariant
            k <= digits@.len(),
            forall|j: int| 0 <= j < k ==> digits@[j] == 0,
        decreases digits@.len() - k,
    {
        k = k + 1;
    }
    assert(digits.len() == digits@.len());
    if k == digits.len() {
        proof {
            float::lemma_zeros_value(digits@);
            assert forall|e: int| #[trigger] float::decimal_floor(value, e, s as nat) == 0 by {
                float::lemma_nothing(e, s as nat);
            }
        }
        return 0;
    }
    if negative {
        proof {
            float::lemma_digits_bound(digits@);
            assert forall|e: int| e <= -HUGE_EXPONENT implies #[trigger] float::decimal_floor(
                value,
                e,
                s as nat,
            ) == 0 by {
                float::lemma_many_zeros(value, digits@.len(), e, s as nat);
            }
        }
        return 0;
    }
    proof {
        float::lemma_nonzero_value(digits@, k as int);
        assert(float::ten(0) == 1);
        assert forall|e: int|
            e >= HUGE_EXPONENT - usize::MAX implies #[trigger] float::decimal_floor(
            value,
            e,
            s as nat,
        ) > u64::MAX by {
            float::lemma_many_digits(value, 1, e, s as nat);
        }
    }
    0xffff_ffff_ffff_ffff
}

/// The whole part of the floating-point number nearest to a decimal number in text, times 2 to the
/// power `s`, cut to 64 bits.
fn decimal_bytes(body: &Vec<char>, s: u32) -> (res: Option<u64>)
    requires
        s <= 30,
    ensures
        match res {
            Some(n) => decimal_text(body@) matches Some((digits, exp)) && n == float::saturated(
                float::decimal_floor(number::value_of(digits) as nat, exp, s as nat),
            ),
            None => decimal_text(body@) is None,
        },
{
    let (mantissa, size, negative) = match split_exponent(body) {
        Some(parts) => parts,
        None => {
            return None;
        },
    };
    let ghost exp = exponent_in(body@)->0;
    let (whole, fraction) = split_point(&mantissa);
    let mut digits: Vec<u8> = Vec::new();
    if !push_digits(&mut digits, &whole) {
        return None;
    }
    if !push_digits(&mut digits, &fraction) {
        return None;
    }
    if whole.len() == 0 && fraction.len() == 0 {
        return None;
    }
    let ghost all = whole@ + fraction@;
    proof {
        assert(number::all_digits(all));
        lemma_digit_numbers(all);
        assert(digits@ =~= digit_numbers(all));
        assert(decimal_text(body@) == Some((all, exp - fraction@.len())));
        assert(fraction.len() == fraction@.len());
    }
    if size == HUGE_EXPONENT {
        return Some(extreme_bytes(&digits, negative, s));
    }
    let signed: i128 = if negative {
        -(size as i128)
    } else {
        size as i128
    };
    let e: i128 = signed - fraction.len() as i128;
    Some(float::floor_of_decimal(&digits, e, s))
}

/// The speed that a text before a unit of 2 to the power `shift` bytes stands for.
pub fn parse_unit_speed(v: &Vec<char>, shift: u32) -> (res: Result<u64, SpeedError>)
    requires
        shift <= 30,
    ensures
        res == unit_speed(v@, shift as nat),
{
    let negative = v.len() > 0 && v[0] == '-';
    let body = strip_sign(v);
    let low = text::to_ascii_lower(&body);
    if text::same(&low, &text::chars_of("inf")) || text::same(&low, &text::chars_of("infinity")) {
        return Ok(
            if negative {
                0
            } else {
                0xffff_ffff_ffff_ffff
            },
        );
    }
    if text::same(&low, &text::chars_of("nan")) {
        return Ok(0);
    }
    match decimal_bytes(&body, shift) {
        Some(n) => Ok(
            if negative {
                0
            } else {
                n
            },
        ),
        None => Err(SpeedError::BadNumber),
    }
}

/// The speed that a text in upper case, without white space around it, stands for.
pub fn parse_upper_speed(v: &Vec<char>) -> (res: Result<u64, SpeedError>)
    ensures
        res == speed_of(v@),
{
    let n = v.len();
    if n > 0 && (v[n - 1] == 'K' || v[n - 1] == 'M' || v[n - 1] == 'G') {
        let shift: u32 = if v[n - 1] == 'K' {
            10
        } else if v[n - 1] == 'M' {
            20
        } else {
            30
        };
        let head = text::slice(v, 0, n - 1);
        assert(head@ =~= v@.drop_last());
        return parse_unit_speed(&head, shift);
    }
    match number::parse_u64(v) {
        Some(x) => Ok(x),
        None => Err(SpeedError::BadInteger),
    }
}

/// The speed limit that a text stands for, in bytes per second: a number before `K`, `M` or `G`, or a
/// whole number alone. Letter case does not count, nor does white space around it.
pub fn parse_speed_limit(input: &str) -> (res: Result<u64, SpeedError>)
    ensures
        res == speed_of(scan::unicode_upper(scan::trim_of(input@))),
{
    let trimmed = text::string_of(&scan::trim(&text::chars_of(input)));
    let upper = scan::to_uppercase(trimmed.as_str());
    parse_upper_speed(&text::chars_of(upper.as_str()))
}

/// A whole number of units stands for that many times the unit: 1024, its square or its cube for `K`,
/// `M` and `G`. Without a unit it is a number of bytes.
pub proof fn law_whole_speeds_are_exact(n: nat, unit: char, size: nat)
    requires
        (unit == 'K' && size == 1024) || (unit == 'M' && size == 1024 * 1024) || (unit == 'G' && size
            == 1024 * 1024 * 1024),
        n * size < 0x20_0000_0000_0000,
    ensures
        speed_of(number::decimal(n).push(unit)) == Ok::<u64, SpeedError>((n * size) as u64),
        speed_of(number::decimal(n)) == Ok::<u64, SpeedError>(n as u64),
{
    let d = number::decimal(n);
    number::law_decimal_reads_back(n);
    assert(d.push(unit).drop_last() =~= d);
    assert(n <= n * size) by (nonlinear_arith)
        requires
            size >= 1,
            n >= 0,
    ;
    assert(number::is_digit(d.last())) by {
        assert(d.last() == d[d.len() - 1]);
    }
    lemma_plain_number(d, Seq::empty());
    assert(d + Seq::<char>::empty() =~= d);
    vstd::arithmetic::power2::lemma2_to64();
    let s: nat = if unit == 'K' {
        10
    } else if unit == 'M' {
        20
    } else {
        30
    };
    assert(vstd::arithmetic::power2::pow2(s) == size);
    assert(float::ten(0) == 1);
    assert(n * 1 * size == n * size) by (nonlinear_arith);
    assert((n * size) / 1 == n * size);
    float::law_small_numbers_are_cut_to_whole_ones(n * size, 1);
}

/// Digits alone, and digits with a point before the last of them, are read as such.
proof fn lemma_plain_number(whole: Seq<char>, fraction: Seq<char>)
    requires
        whole.len() > 0,
        number::all_digits(whole),
        number::all_digits(fraction),
    ensures
        float_of(whole) == Some(
            FloatText::Finite { negative: false, digits: whole, exp: 0 },
        ),
        float_of(whole + seq!['.'] + fraction) == Some(
            FloatText::Finite {
                negative: false,
                digits: whole + fraction,
                exp: -(fraction.len() as int),
            },
        ),
{
    reveal_strlit("inf");
    reveal_strlit("infinity");
    reveal_strlit("nan");
    let s = whole + seq!['.'] + fraction;
    assert(number::is_digit(whole[0]));
    assert(s[0] == whole[0]);
    lemma_no_letters(whole);
    assert forall|i: int| 0 <= i < s.len() implies number::is_digit(#[trigger] s[i]) || s[i]
        == '.' by {
        if i < whole.len() {
            assert(s[i] == whole[i]);
            assert(number::is_digit(whole[i]));
        } else if i > whole.len() {
            assert(s[i] == fraction[i - whole.len() - 1]);
            assert(number::is_digit(fraction[i - whole.len() - 1]));
        }
    }
    lemma_no_letters(s);
    assert(text::ascii_lower(s)[0] == s[0]);
    assert(text::ascii_lower(whole)[0] == whole[0]);
    assert("inf"@[0] == 'i' && "infinity"@[0] == 'i' && "nan"@[0] == 'n');
    assert(!whole.contains('.')) by {
        if whole.contains('.') {
            let i = choose|i: int| 0 <= i < whole.len() && whole[i] == '.';
            assert(number::is_digit(whole[i]));
        }
    }
    text::law_parts_around_a_character(whole, '.', fraction);
    whole.index_of_first_ensures('.');
    s.index_of_first_ensures('.');
    assert(s[whole.len() as int] == '.');
    let k = s.index_of_first('.')->0;
    if k < whole.len() {
        assert(whole[k] == '.');
        assert(whole.contains('.'));
    }
    assert(s.skip(whole.len() as int + 1) =~= fraction);
    assert(whole + Seq::<char>::empty() =~= whole);
    assert(number::all_digits(Seq::<char>::empty()));
}

proof fn lemma_no_letters(s: Seq<char>)
    requires
        forall|i: int| 0 <= i < s.len() ==> number::is_digit(#[trigger] s[i]) || s[i] == '.',
    ensures
        text::ascii_lower(s).index_of_first('e') is None,
        text::ascii_lower(s) == s,
{
    let low = text::ascii_lower(s);
    assert(low =~= s) by {
        assert forall|i: int| 0 <= i < s.len() implies low[i] == s[i] by {
            assert(number::is_digit(s[i]) || s[i] == '.');
        }
    }
    low.index_of_first_ensures('e');
    if low.contains('e') {
        let i = choose|i: int| 0 <= i < low.len() && low[i] == 'e';
        assert(number::is_digit(s[i]) || s[i] == '.');
    }
}

/// A number with places behind the point stands for that many units, cut to whole bytes: for no less,
/// and for at most one byte more, where rounding reaches it.
pub proof fn law_speeds_with_places_are_cut_to_bytes(
    whole: Seq<char>,
    fraction: Seq<char>,
    unit: char,
    size: nat,
)
    requires
        (unit == 'K' && size == 1024) || (unit == 'M' && size == 1024 * 1024) || (unit == 'G' && size
            == 1024 * 1024 * 1024),
        whole.len() > 0,
        fraction.len() > 0,
        number::all_digits(whole),
        number::all_digits(fraction),
        number::value_of(whole + fraction) >= 0,
        number::value_of(whole + fraction) * size / (float::ten(fraction.len()) as int)
            < 0x20_0000_0000_0000,
    ensures
        ({
            let exact = number::value_of(whole + fraction) * size / (float::ten(
                fraction.len(),
            ) as int);
            let res = speed_of((whole + seq!['.'] + fraction).push(unit));
            res is Ok && exact <= res->Ok_0 && res->Ok_0 <= exact + 1
        }),
{
    let s = whole + seq!['.'] + fraction;
    lemma_plain_number(whole, fraction);
    assert(s.push(unit).drop_last() =~= s);
    vstd::arithmetic::power2::lemma2_to64();
    let k: nat = if unit == 'K' {
        10
    } else if unit == 'M' {
        20
    } else {
        30
    };
    assert(vstd::arithmetic::power2::pow2(k) == size);
    let v = number::value_of(whole + fraction) as nat;
    float::lemma_ten_positive(fraction.len());
    float::law_small_numbers_are_cut_to_whole_ones(v * size, float::ten(fraction.len()));
    assert(v * size >= 0) by (nonlinear_arith)
        requires
            v >= 0,
            size >= 0,
    ;
}

/// A plus sign does not count, and less than nothing is nothing.
pub proof fn law_signs_of_speeds(s: Seq<char>, unit: char)
    requires
        unit == 'K' || unit == 'M' || unit == 'G',
        s.len() > 0 ==> s[0] != '+' && s[0] != '-',
    ensures
        speed_of((seq!['+'] + s).push(unit)) == speed_of(s.push(unit)),
        speed_of(s.push(unit)) is Ok ==> speed_of((seq!['-'] + s).push(unit)) == Ok::<
            u64,
            SpeedError,
        >(0),
        speed_of(s.push(unit)) is Err ==> speed_of((seq!['-'] + s).push(unit)) == Err::<
            u64,
            SpeedError,
        >(SpeedError::BadNumber),
{
    let p = seq!['+'] + s;
    let m = seq!['-'] + s;
    assert(p.push(unit).drop_last() =~= p);
    assert(m.push(unit).drop_last() =~= m);
    assert(s.push(unit).drop_last() =~= s);
    assert(p.skip(1) =~= s);
    assert(m.skip(1) =~= s);
}

/// An exponent multiplies with a power of 10.
pub proof fn law_exponents_move_the_point(n: nat, e: nat, unit: char, size: nat)
    requires
        (unit == 'K' && size == 1024) || (unit == 'M' && size == 1024 * 1024) || (unit == 'G' && size
            == 1024 * 1024 * 1024),
        n * float::ten(e) * size < 0x20_0000_0000_0000,
    ensures
        speed_of((number::decimal(n) + seq!['E'] + number::decimal(e)).push(unit)) == Ok::<
            u64,
            SpeedError,
        >((n * float::ten(e) * size) as u64),
{
    let d = number::decimal(n);
    let x = number::decimal(e);
    let s = d + seq!['E'] + x;
    number::law_decimal_reads_back(n);
    number::law_decimal_reads_back(e);
    reveal_strlit("inf");
    reveal_strlit("infinity");
    reveal_strlit("nan");
    assert(s.push(unit).drop_last() =~= s);
    assert(number::is_digit(d[0]) && number::is_digit(x[0]));
    assert(s[0] == d[0]);
    let low = text::ascii_lower(s);
    assert(low[0] == s[0]);
    assert("inf"@[0] == 'i' && "infinity"@[0] == 'i' && "nan"@[0] == 'n');
    assert(low[d.len() as int] == 'e');
    low.index_of_first_ensures('e');
    let k = low.index_of_first('e')->0;
    if k < d.len() {
        assert(s[k] == d[k]);
        assert(number::is_digit(d[k]));
    }
    assert(k == d.len());
    assert(s.take(k) =~= d);
    assert(s.skip(k + 1) =~= x);
    assert(!d.contains('.')) by {
        if d.contains('.') {
            let i = choose|i: int| 0 <= i < d.len() && d[i] == '.';
            assert(number::is_digit(d[i]));
        }
    }
    d.index_of_first_ensures('.');
    assert(d + Seq::<char>::empty() =~= d);
    assert(float_of(s) == Some(FloatText::Finite { negative: false, digits: d, exp: e as int }));
    vstd::arithmetic::power2::lemma2_to64();
    let b: nat = if unit == 'K' {
        10
    } else if unit == 'M' {
        20
    } else {
        30
    };
    assert(vstd::arithmetic::power2::pow2(b) == size);
    let all = n * float::ten(e) * size;
    assert(all / 1 == all);
    float::law_small_numbers_are_cut_to_whole_ones(all, 1);
}

/// A speed beyond what 64 bits hold is the largest that they do.
pub proof fn law_large_speeds_are_the_largest(n: nat, unit: char, size: nat)
    requires
        (unit == 'K' && size == 1024) || (unit == 'M' && size == 1024 * 1024) || (unit == 'G' && size
            == 1024 * 1024 * 1024),
        n * size >= 0x2_0000_0000_0000_0000,
    ensures
        speed_of(number::decimal(n).push(unit)) == Ok::<u64, SpeedError>(u64::MAX),
{
    let d = number::decimal(n);
    number::law_decimal_reads_back(n);
    assert(d.push(unit).drop_last() =~= d);
    lemma_plain_number(d, Seq::empty());
    vstd::arithmetic::power2::lemma2_to64();
    let b: nat = if unit == 'K' {
        10
    } else if unit == 'M' {
        20
    } else {
        30
    };
    assert(vstd::arithmetic::power2::pow2(b) == size);
    assert(float::ten(0) == 1);
    assert(n * 1 * size == n * size) by (nonlinear_arith);
    let all = n * size;
    assert(all / 1 == all);
    float::law_large_numbers_are_rounded_to_53_bits(all, 1);
}

} // verus!
