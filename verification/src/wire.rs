//! The binary form of snapshots: fixed-width little-endian numbers, and lengths before what varies.

use vstd::prelude::*;
use vstd::utf8::{decode_utf8, encode_utf8};

verus! {

/// The `k` low bytes of a number, the least significant one first.
pub open spec fn le(n: nat, k: nat) -> Seq<u8>
    decreases k,
{
    if k == 0 {
        Seq::empty()
    } else {
        seq![(n % 256) as u8] + le(n / 256, (k - 1) as nat)
    }
}

/// A number of 64 bits, the least significant byte first.
pub open spec fn le64(n: u64) -> Seq<u8> {
    le(n as nat, 8)
}

/// A text: the length of its UTF-8 form, and that.
pub open spec fn text_bytes(s: Seq<char>) -> Seq<u8> {
    le64(encode_utf8(s).len() as u64) + encode_utf8(s)
}

/// Ranges with their progress, three numbers each.
pub open spec fn ranges_bytes(v: Seq<(u64, u64, u64)>) -> Seq<u8>
    decreases v.len(),
{
    if v.len() == 0 {
        Seq::empty()
    } else {
        le64(v[0].0) + (le64(v[0].1) + (le64(v[0].2) + ranges_bytes(v.skip(1))))
    }
}

/// Texts, one behind the other.
pub open spec fn texts_bytes(v: Seq<Seq<char>>) -> Seq<u8>
    decreases v.len(),
{
    if v.len() == 0 {
        Seq::empty()
    } else {
        text_bytes(v[0]) + texts_bytes(v.skip(1))
    }
}

/// Numbers, one behind the other.
pub open spec fn numbers_bytes(v: Seq<u64>) -> Seq<u8>
    decreases v.len(),
{
    if v.len() == 0 {
        Seq::empty()
    } else {
        le64(v[0]) + numbers_bytes(v.skip(1))
    }
}

/// The state of a download.
pub open spec fn state_bytes(url: Seq<char>, size: u64, ranges: Seq<(u64, u64, u64)>) -> Seq<u8> {
    text_bytes(url) + (le64(size) + (le64(ranges.len() as u64) + ranges_bytes(ranges)))
}

/// The state of a stream.
pub open spec fn stream_bytes(urls: Seq<Seq<char>>, completed: Seq<u64>) -> Seq<u8> {
    le64(urls.len() as u64) + (texts_bytes(urls) + (le64(completed.len() as u64) + numbers_bytes(
        completed,
    )))
}

/// The text is short enough for its length to be written.
pub open spec fn fits_text(s: Seq<char>) -> bool {
    encode_utf8(s).len() <= u64::MAX
}

/// The state is short enough for its lengths to be written.
pub open spec fn fits_state(url: Seq<char>, ranges: Seq<(u64, u64, u64)>) -> bool {
    fits_text(url) && ranges.len() <= u64::MAX
}

/// The state is short enough for its lengths to be written.
pub open spec fn fits_stream(urls: Seq<Seq<char>>, completed: Seq<u64>) -> bool {
    urls.len() <= u64::MAX && completed.len() <= u64::MAX && forall|i: int|
        0 <= i < urls.len() ==> fits_text(#[trigger] urls[i])
}

/// The bytes begin with the form of this state.
pub open spec fn begins_with_state(
    bytes: Seq<u8>,
    url: Seq<char>,
    size: u64,
    ranges: Seq<(u64, u64, u64)>,
) -> bool {
    fits_state(url, ranges) && state_bytes(url, size, ranges).is_prefix_of(bytes)
}

/// The bytes begin with the form of this state.
pub open spec fn begins_with_stream(
    bytes: Seq<u8>,
    urls: Seq<Seq<char>>,
    completed: Seq<u64>,
) -> bool {
    fits_stream(urls, completed) && stream_bytes(urls, completed).is_prefix_of(bytes)
}

/// The number that some bytes stand for, the least significant one first.
spec fn value(s: Seq<u8>) -> nat
    decreases s.len(),
{
    if s.len() == 0 {
        0
    } else {
        s[0] as nat + 256 * value(s.skip(1))
    }
}

spec fn power256(k: nat) -> nat
    decreases k,
{
    if k == 0 {
        1
    } else {
        256 * power256((k - 1) as nat)
    }
}

proof fn lemma_le(n: nat, k: nat)
    requires
        n < power256(k),
    ensures
        le(n, k).len() == k,
        value(le(n, k)) == n,
    decreases k,
{
    if k > 0 {
        lemma_le(n / 256, (k - 1) as nat);
        assert(le(n, k).skip(1) =~= le(n / 256, (k - 1) as nat));
        assert(le(n, k)[0] == (n % 256) as u8);
    }
}

proof fn lemma_le64(n: u64)
    ensures
        le64(n).len() == 8,
        value(le64(n)) == n,
{
    reveal_with_fuel(power256, 9);
    assert(power256(8) == 0x1_0000_0000_0000_0000);
    lemma_le(n as nat, 8);
}

/// Where two things are written at the same place, their first parts agree if they are as long, and
/// so do the places where the rest is written.
proof fn lemma_parts(a1: Seq<u8>, r1: Seq<u8>, a2: Seq<u8>, r2: Seq<u8>, b: Seq<u8>)
    requires
        (a1 + r1).is_prefix_of(b),
        (a2 + r2).is_prefix_of(b),
        a1.len() == a2.len(),
    ensures
        a1 == a2,
        r1.is_prefix_of(b.skip(a1.len() as int)),
        r2.is_prefix_of(b.skip(a1.len() as int)),
{
    assert(a1 =~= (a1 + r1).subrange(0, a1.len() as int));
    assert(a1 =~= b.subrange(0, a1.len() as int));
    assert(a2 =~= b.subrange(0, a1.len() as int));
    assert forall|i: int| 0 <= i < r1.len() implies r1[i] == b.skip(a1.len() as int)[i] by {
        assert((a1 + r1)[a1.len() + i] == b.subrange(0, (a1 + r1).len() as int)[a1.len() + i]);
    }
    assert(r1 =~= b.skip(a1.len() as int).subrange(0, r1.len() as int));
    assert forall|i: int| 0 <= i < r2.len() implies r2[i] == b.skip(a1.len() as int)[i] by {
        assert((a2 + r2)[a1.len() + i] == b.subrange(0, (a2 + r2).len() as int)[a1.len() + i]);
    }
    assert(r2 =~= b.skip(a1.len() as int).subrange(0, r2.len() as int));
}

proof fn lemma_number(n1: u64, r1: Seq<u8>, n2: u64, r2: Seq<u8>, b: Seq<u8>)
    requires
        (le64(n1) + r1).is_prefix_of(b),
        (le64(n2) + r2).is_prefix_of(b),
    ensures
        n1 == n2,
        r1.is_prefix_of(b.skip(8)),
        r2.is_prefix_of(b.skip(8)),
{
    lemma_le64(n1);
    lemma_le64(n2);
    lemma_parts(le64(n1), r1, le64(n2), r2, b);
}

proof fn lemma_text(s1: Seq<char>, r1: Seq<u8>, s2: Seq<char>, r2: Seq<u8>, b: Seq<u8>)
    requires
        fits_text(s1),
        fits_text(s2),
        (text_bytes(s1) + r1).is_prefix_of(b),
        (text_bytes(s2) + r2).is_prefix_of(b),
    ensures
        s1 == s2,
        r1.is_prefix_of(b.skip(text_bytes(s1).len() as int)),
        r2.is_prefix_of(b.skip(text_bytes(s1).len() as int)),
{
    broadcast use vstd::utf8::encode_utf8_decode_utf8;

    let e1 = encode_utf8(s1);
    let e2 = encode_utf8(s2);
    assert(text_bytes(s1) + r1 =~= le64(e1.len() as u64) + (e1 + r1));
    assert(text_bytes(s2) + r2 =~= le64(e2.len() as u64) + (e2 + r2));
    lemma_number(e1.len() as u64, e1 + r1, e2.len() as u64, e2 + r2, b);
    lemma_parts(e1, r1, e2, r2, b.skip(8));
    lemma_le64(e1.len() as u64);
    assert(decode_utf8(e1) == s1 && decode_utf8(e2) == s2);
    assert(b.skip(8).skip(e1.len() as int) =~= b.skip(text_bytes(s1).len() as int));
}

proof fn lemma_ranges(v1: Seq<(u64, u64, u64)>, v2: Seq<(u64, u64, u64)>, b: Seq<u8>)
    requires
        v1.len() == v2.len(),
        ranges_bytes(v1).is_prefix_of(b),
        ranges_bytes(v2).is_prefix_of(b),
    ensures
        v1 == v2,
    decreases v1.len(),
{
    if v1.len() > 0 {
        let t1 = ranges_bytes(v1.skip(1));
        let t2 = ranges_bytes(v2.skip(1));
        let (x1, y1, z1) = v1[0];
        let (x2, y2, z2) = v2[0];
        lemma_number(x1, le64(y1) + (le64(z1) + t1), x2, le64(y2) + (le64(z2) + t2), b);
        lemma_number(y1, le64(z1) + t1, y2, le64(z2) + t2, b.skip(8));
        lemma_number(z1, t1, z2, t2, b.skip(8).skip(8));
        lemma_ranges(v1.skip(1), v2.skip(1), b.skip(8).skip(8).skip(8));
        assert(v1 =~= seq![v1[0]] + v1.skip(1));
        assert(v2 =~= seq![v2[0]] + v2.skip(1));
    } else {
        assert(v1 =~= v2);
    }
}

proof fn lemma_numbers(v1: Seq<u64>, v2: Seq<u64>, b: Seq<u8>)
    requires
        v1.len() == v2.len(),
        numbers_bytes(v1).is_prefix_of(b),
        numbers_bytes(v2).is_prefix_of(b),
    ensures
        v1 == v2,
    decreases v1.len(),
{
    if v1.len() > 0 {
        lemma_number(v1[0], numbers_bytes(v1.skip(1)), v2[0], numbers_bytes(v2.skip(1)), b);
        lemma_numbers(v1.skip(1), v2.skip(1), b.skip(8));
        assert(v1 =~= seq![v1[0]] + v1.skip(1));
        assert(v2 =~= seq![v2[0]] + v2.skip(1));
    } else {
        assert(v1 =~= v2);
    }
}

proof fn lemma_texts(
    v1: Seq<Seq<char>>,
    r1: Seq<u8>,
    v2: Seq<Seq<char>>,
    r2: Seq<u8>,
    b: Seq<u8>,
)
    requires
        v1.len() == v2.len(),
        forall|i: int| 0 <= i < v1.len() ==> fits_text(#[trigger] v1[i]),
        forall|i: int| 0 <= i < v2.len() ==> fits_text(#[trigger] v2[i]),
        (texts_bytes(v1) + r1).is_prefix_of(b),
        (texts_bytes(v2) + r2).is_prefix_of(b),
    ensures
        v1 == v2,
        r1.is_prefix_of(b.skip(texts_bytes(v1).len() as int)),
        r2.is_prefix_of(b.skip(texts_bytes(v1).len() as int)),
    decreases v1.len(),
{
    if v1.len() > 0 {
        let t1 = texts_bytes(v1.skip(1));
        let t2 = texts_bytes(v2.skip(1));
        assert(texts_bytes(v1) + r1 =~= text_bytes(v1[0]) + (t1 + r1));
        assert(texts_bytes(v2) + r2 =~= text_bytes(v2[0]) + (t2 + r2));
        lemma_text(v1[0], t1 + r1, v2[0], t2 + r2, b);
        let rest = b.skip(text_bytes(v1[0]).len() as int);
        assert forall|i: int| 0 <= i < v1.skip(1).len() implies fits_text(
            #[trigger] v1.skip(1)[i],
        ) by {
            assert(v1.skip(1)[i] == v1[i + 1]);
        }
        assert forall|i: int| 0 <= i < v2.skip(1).len() implies fits_text(
            #[trigger] v2.skip(1)[i],
        ) by {
            assert(v2.skip(1)[i] == v2[i + 1]);
        }
        lemma_texts(v1.skip(1), r1, v2.skip(1), r2, rest);
        assert(v1 =~= seq![v1[0]] + v1.skip(1));
        assert(v2 =~= seq![v2[0]] + v2.skip(1));
        assert(rest.skip(t1.len() as int) =~= b.skip(texts_bytes(v1).len() as int));
    } else {
        assert(v1 =~= v2);
        assert(texts_bytes(v1) + r1 =~= r1);
        assert(texts_bytes(v2) + r2 =~= r2);
        assert(b.skip(0) =~= b);
    }
}

/// No two states of a download have forms with which the same bytes begin: what was written is read
/// back, whatever follows it.
pub proof fn law_state_is_read_back(
    bytes: Seq<u8>,
    u1: Seq<char>,
    s1: u64,
    r1: Seq<(u64, u64, u64)>,
    u2: Seq<char>,
    s2: u64,
    r2: Seq<(u64, u64, u64)>,
)
    requires
        begins_with_state(bytes, u1, s1, r1),
        begins_with_state(bytes, u2, s2, r2),
    ensures
        u1 == u2,
        s1 == s2,
        r1 == r2,
{
    let t1 = le64(r1.len() as u64) + ranges_bytes(r1);
    let t2 = le64(r2.len() as u64) + ranges_bytes(r2);
    lemma_text(u1, le64(s1) + t1, u2, le64(s2) + t2, bytes);
    let b = bytes.skip(text_bytes(u1).len() as int);
    lemma_number(s1, t1, s2, t2, b);
    lemma_number(
        r1.len() as u64,
        ranges_bytes(r1),
        r2.len() as u64,
        ranges_bytes(r2),
        b.skip(8),
    );
    lemma_ranges(r1, r2, b.skip(8).skip(8));
}

/// No two states of a stream have forms with which the same bytes begin.
pub proof fn law_stream_is_read_back(
    bytes: Seq<u8>,
    u1: Seq<Seq<char>>,
    c1: Seq<u64>,
    u2: Seq<Seq<char>>,
    c2: Seq<u64>,
)
    requires
        begins_with_stream(bytes, u1, c1),
        begins_with_stream(bytes, u2, c2),
    ensures
        u1 == u2,
        c1 == c2,
{
    let n1 = le64(c1.len() as u64) + numbers_bytes(c1);
    let n2 = le64(c2.len() as u64) + numbers_bytes(c2);
    lemma_number(u1.len() as u64, texts_bytes(u1) + n1, u2.len() as u64, texts_bytes(u2) + n2, bytes);
    lemma_texts(u1, n1, u2, n2, bytes.skip(8));
    let b = bytes.skip(8).skip(texts_bytes(u1).len() as int);
    lemma_number(c1.len() as u64, numbers_bytes(c1), c2.len() as u64, numbers_bytes(c2), b);
    lemma_numbers(c1, c2, b.skip(8));
}

/// The bytes of a number stand with the least significant one first, and make it up.
pub proof fn law_numbers_begin_with_their_least_byte(n: u64)
    ensures
        le64(n).len() == 8,
        n == le64(n)[0] + 0x100 * le64(n)[1] + 0x1_0000 * le64(n)[2] + 0x100_0000 * le64(n)[3]
            + 0x1_0000_0000 * le64(n)[4] + 0x100_0000_0000 * le64(n)[5] + 0x1_0000_0000_0000
            * le64(n)[6] + 0x100_0000_0000_0000 * le64(n)[7],
{
    reveal_with_fuel(le, 9);
}

} // verus!
