//! Columns of a text table.

use crate::number;
use crate::text;
use vstd::prelude::*;
use vstd::utf8::{decode_utf8, encode_utf8, encode_utf8_decode_utf8, encode_utf8_valid_utf8,
    is_char_boundary};

verus! {

/// A character, some times over.
pub open spec fn run_of(c: char, n: int) -> Seq<char> {
    Seq::new(n as nat, |i: int| c)
}

/// The text, filled up to a width with a character behind it; a wider one stays as it is.
pub open spec fn padded(s: Seq<char>, fill: char, width: int) -> Seq<char> {
    if s.len() < width {
        s + run_of(fill, width - s.len())
    } else {
        s
    }
}

/// The text, filled up to a width with spaces before it; a wider one stays as it is.
pub open spec fn right_aligned(s: Seq<char>, width: int) -> Seq<char> {
    if s.len() < width {
        run_of(' ', width - s.len()) + s
    } else {
        s
    }
}

/// Fills a text up to a width with a character behind it.
pub fn pad(s: &str, fill: char, width: usize) -> (res: String)
    ensures
        res@ == padded(s@, fill, width as int),
{
    let mut out = s.to_owned();
    let mut n: usize = s.unicode_len();
    let ghost start: int = n as int;
    while n < width
        invariant
            start == s@.len(),
            start <= n,
            n <= width || n == start,
            out@ == s@ + run_of(fill, n - start),
        decreases width - n,
    {
        out.push(fill);
        n = n + 1;
        proof {
            assert(out@ =~= s@ + run_of(fill, n - start));
        }
    }
    proof {
        assert(out@ =~= padded(s@, fill, width as int));
    }
    out
}

/// Fills a text up to a width with spaces before it.
pub fn align_right(s: &str, width: usize) -> (res: String)
    ensures
        res@ == right_aligned(s@, width as int),
{
    let mut out = String::new();
    let mut n: usize = s.unicode_len();
    let ghost start: int = n as int;
    while n < width
        invariant
            start == s@.len(),
            start <= n,
            n <= width || n == start,
            out@ == run_of(' ', n - start),
        decreases width - n,
    {
        out.push(' ');
        n = n + 1;
        proof {
            assert(out@ =~= run_of(' ', n - start));
        }
    }
    out.append(s);
    proof {
        assert(out@ =~= right_aligned(s@, width as int));
    }
    out
}

/// The decimal form of a signed number.
pub open spec fn signed_decimal(n: int) -> Seq<char> {
    if n < 0 {
        "-"@ + number::decimal((-n) as nat)
    } else {
        number::decimal(n as nat)
    }
}

/// The decimal form of a signed number.
pub fn to_signed_decimal(n: i64) -> (res: String)
    ensures
        res@ == signed_decimal(n as int),
{
    if n < 0 {
        let mut out = String::new();
        out.append("-");
        out.append(text::string_of(&number::to_decimal((-(n as i128)) as u128)).as_str());
        proof {
            assert(out@ =~= signed_decimal(n as int));
        }
        out
    } else {
        text::string_of(&number::to_decimal(n as u128))
    }
}

/// How many bytes a text takes in UTF-8.
pub open spec fn byte_len(s: Seq<char>) -> int {
    encode_utf8(s).len() as int
}

/// The text can be cut before that byte: a character begins or the text ends there.
pub open spec fn cuttable(s: Seq<char>, at: int) -> bool {
    is_char_boundary(encode_utf8(s), at)
}

/// What stands before a byte.
pub open spec fn bytes_before(s: Seq<char>, at: int) -> Seq<char> {
    decode_utf8(encode_utf8(s).subrange(0, at))
}

/// What stands from a byte on.
pub open spec fn bytes_from(s: Seq<char>, at: int) -> Seq<char> {
    decode_utf8(encode_utf8(s).subrange(at, byte_len(s)))
}

/// The text, or its first bytes and three dots where it takes more than `width` bytes.
pub open spec fn head_shown(s: Seq<char>, width: int) -> Seq<char> {
    if byte_len(s) > width {
        bytes_before(s, width - 3) + "..."@
    } else {
        s
    }
}

/// The text, or three dots and its last bytes where it takes more than `width` bytes.
pub open spec fn tail_shown(s: Seq<char>, width: int) -> Seq<char> {
    if byte_len(s) > width {
        "..."@ + bytes_from(s, byte_len(s) - (width - 3))
    } else {
        s
    }
}

/// The first bytes of the text can be shown.
pub open spec fn head_fits(s: Seq<char>, width: int) -> bool {
    byte_len(s) > width ==> cuttable(s, width - 3)
}

/// The last bytes of the text can be shown.
pub open spec fn tail_fits(s: Seq<char>, width: int) -> bool {
    byte_len(s) > width ==> cuttable(s, byte_len(s) - (width - 3))
}

/// Whether the first bytes of a text can be shown.
pub fn can_show_head(s: &str, width: usize) -> (res: bool)
    requires
        width >= 3,
    ensures
        res == head_fits(s@, width as int),
{
    let n: usize = s.as_bytes().len();
    n <= width || s.is_char_boundary(width - 3)
}

/// Whether the last bytes of a text can be shown.
pub fn can_show_tail(s: &str, width: usize) -> (res: bool)
    requires
        width >= 3,
    ensures
        res == tail_fits(s@, width as int),
{
    let n: usize = s.as_bytes().len();
    n <= width || s.is_char_boundary(n - (width - 3))
}

/// The text, or its first bytes and three dots.
pub fn show_head(s: &str, width: usize) -> (res: String)
    requires
        width >= 3,
        head_fits(s@, width as int),
    ensures
        res@ == head_shown(s@, width as int),
{
    let n: usize = s.as_bytes().len();
    if n > width {
        let (head, tail) = s.split_at(width - 3);
        let mut out = head.to_owned();
        out.append("...");
        proof {
            encode_utf8_decode_utf8(head@);
            assert(encode_utf8(head@) =~= encode_utf8(s@).subrange(0, width - 3));
            assert(out@ =~= head_shown(s@, width as int));
        }
        out
    } else {
        s.to_owned()
    }
}

/// The text, or three dots and its last bytes.
pub fn show_tail(s: &str, width: usize) -> (res: String)
    requires
        width >= 3,
        tail_fits(s@, width as int),
    ensures
        res@ == tail_shown(s@, width as int),
{
    let n: usize = s.as_bytes().len();
    if n > width {
        let (head, tail) = s.split_at(n - (width - 3));
        let mut out = String::new();
        out.append("...");
        out.append(tail);
        proof {
            encode_utf8_decode_utf8(tail@);
            assert(encode_utf8(tail@) =~= encode_utf8(s@).subrange(n - (width - 3), n as int));
            assert(out@ =~= tail_shown(s@, width as int));
        }
        out
    } else {
        s.to_owned()
    }
}

/// A column is at least as wide as it was asked for, and keeps the text where that is wider.
pub proof fn law_columns_keep_their_text(s: Seq<char>, fill: char, width: int)
    requires
        width >= 0,
    ensures
        padded(s, fill, width).len() == if s.len() < width {
            width
        } else {
            s.len() as int
        },
        padded(s, fill, width).take(s.len() as int) == s,
        right_aligned(s, width).len() == padded(s, fill, width).len(),
        right_aligned(s, width).skip(right_aligned(s, width).len() - s.len()) == s,
{
    assert(padded(s, fill, width).take(s.len() as int) =~= s);
    assert(right_aligned(s, width).skip(right_aligned(s, width).len() - s.len()) =~= s);
}

/// A text that was cut takes no more bytes than it was given.
pub proof fn law_cut_texts_fit(s: Seq<char>, width: int)
    requires
        width >= 3,
        head_fits(s, width),
        tail_fits(s, width),
    ensures
        byte_len(head_shown(s, width)) <= width,
        byte_len(tail_shown(s, width)) <= width,
{
    reveal_strlit("...");
    encode_utf8_valid_utf8(s);
    if byte_len(s) > width {
        let b = encode_utf8(s);
        let k = width - 3;
        let m = byte_len(s) - k;
        vstd::utf8::valid_utf8_split(b, k);
        vstd::utf8::valid_utf8_split(b, m);
        vstd::utf8::decode_utf8_encode_utf8(b.subrange(0, k));
        vstd::utf8::decode_utf8_encode_utf8(b.subrange(m, b.len() as int));
        lemma_dots();
        lemma_bytes_concat(bytes_before(s, k), "..."@);
        lemma_bytes_concat("..."@, bytes_from(s, m));
    }
}

proof fn lemma_bytes_concat(a: Seq<char>, b: Seq<char>)
    ensures
        encode_utf8(a + b) == encode_utf8(a) + encode_utf8(b),
    decreases a.len(),
{
    if a.len() == 0 {
        assert(a + b =~= b);
        assert(encode_utf8(a) + encode_utf8(b) =~= encode_utf8(b));
    } else {
        lemma_bytes_concat(a.drop_first(), b);
        assert((a + b).drop_first() =~= a.drop_first() + b);
        assert((a + b)[0] == a[0]);
        assert(encode_utf8(a + b) =~= encode_utf8(a) + encode_utf8(b));
    }
}

proof fn lemma_dots()
    ensures
        byte_len("..."@) == 3,
{
    reveal_strlit("...");
    reveal_with_fuel(encode_utf8, 4);
    assert("..."@ =~= seq!['.', '.', '.']);
    assert("..."@.drop_first() =~= seq!['.', '.']);
    assert("..."@.drop_first().drop_first() =~= seq!['.']);
    assert("..."@.drop_first().drop_first().drop_first() =~= Seq::<char>::empty());
}

/// A text that is too wide shows its first or its last bytes, three fewer than the width, and three dots
/// for the rest; any other is shown as it is.
pub proof fn law_cut_texts_show_their_ends(s: Seq<char>, width: int)
    requires
        width >= 3,
        head_fits(s, width),
        tail_fits(s, width),
    ensures
        encode_utf8(s).len() > width ==> encode_utf8(head_shown(s, width)) == encode_utf8(s).take(
            width - 3,
        ) + encode_utf8("..."@),
        encode_utf8(s).len() > width ==> encode_utf8(tail_shown(s, width)) == encode_utf8("..."@)
            + encode_utf8(s).skip(encode_utf8(s).len() - (width - 3)),
        encode_utf8(s).len() <= width ==> head_shown(s, width) == s && tail_shown(s, width) == s,
{
    encode_utf8_valid_utf8(s);
    if byte_len(s) > width {
        let b = encode_utf8(s);
        let k = width - 3;
        let m = byte_len(s) - k;
        vstd::utf8::valid_utf8_split(b, k);
        vstd::utf8::valid_utf8_split(b, m);
        vstd::utf8::decode_utf8_encode_utf8(b.subrange(0, k));
        vstd::utf8::decode_utf8_encode_utf8(b.subrange(m, b.len() as int));
        lemma_bytes_concat(bytes_before(s, k), "..."@);
        lemma_bytes_concat("..."@, bytes_from(s, m));
        assert(b.subrange(0, k) =~= b.take(k));
        assert(b.subrange(m, b.len() as int) =~= b.skip(m));
    }
}

/// What fills a column up is the fill behind the text, or spaces before it.
pub proof fn law_columns_are_filled_up(s: Seq<char>, fill: char, width: int, i: int)
    requires
        s.len() <= i < width,
    ensures
        padded(s, fill, width)[i] == fill,
        right_aligned(s, width)[i - s.len()] == ' ',
{
}

/// A number below zero has a minus before it, and its digits are those of what is missing to zero.
pub proof fn law_signed_numbers_read_back(n: i64)
    ensures
        n >= 0 ==> number::u64_of(signed_decimal(n as int)) == Some(n as u64),
        n < 0 ==> signed_decimal(n as int)[0] == '-' && number::u64_of(
            signed_decimal(n as int).skip(1),
        ) == Some((-n) as u64),
{
    reveal_strlit("-");
    if n >= 0 {
        number::law_decimal_reads_back(n as nat);
    } else {
        number::law_decimal_reads_back((-n) as nat);
        assert(signed_decimal(n as int).skip(1) =~= number::decimal((-n) as nat));
    }
}

} // verus!
