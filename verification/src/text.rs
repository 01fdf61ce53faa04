//! Text as sequences of characters: searching, splitting, trimming, decimal numbers.

use vstd::prelude::*;

verus! {

/// `String::push` appends the character to the end of the string.
pub assume_specification[ String::push ](s: &mut String, c: char)
    ensures
        final(s)@ == old(s)@.push(c),
;

/// The characters of a string, in order.
pub fn chars_of(s: &str) -> (res: Vec<char>)
    ensures
        res@ == s@,
{
    let mut out: Vec<char> = Vec::new();
    for c in iter: s.chars()
        invariant
            out@ == iter.seq().take(iter.index()),
            iter.seq() == s@,
    {
        proof {
            assert(iter.seq().take(iter.index()).push(c) =~= iter.seq().take(iter.index() + 1));
        }
        out.push(c);
    }
    proof {
        assert(s@.take(s@.len() as int) =~= s@);
    }
    out
}

/// The string made of the characters, in order.
pub fn string_of(v: &Vec<char>) -> (res: String)
    ensures
        res@ == v@,
{
    let mut out = String::new();
    let mut i: usize = 0;
    while i < v.len()
        invariant
            i <= v.len(),
            out@ == v@.take(i as int),
        decreases v.len() - i,
    {
        proof {
            assert(v@.take(i as int).push(v@[i as int]) =~= v@.take(i + 1));
        }
        out.push(v[i]);
        i += 1;
    }
    proof {
        assert(v@.take(v@.len() as int) =~= v@);
    }
    out
}

/// Whether two strings hold the same characters.
pub fn eq(a: &str, b: &str) -> (res: bool)
    ensures
        res == (a@ == b@),
{
    let x = chars_of(a);
    let y = chars_of(b);
    same(&x, &y)
}

/// Whether two character vectors hold the same characters.
pub fn same(a: &Vec<char>, b: &Vec<char>) -> (res: bool)
    ensures
        res == (a@ == b@),
{
    if a.len() != b.len() {
        return false;
    }
    let mut i: usize = 0;
    while i < a.len()
        invariant
            i <= a@.len(),
            a@.len() == b@.len(),
            forall|k: int| 0 <= k < i ==> a@[k] == b@[k],
        decreases a@.len() - i,
    {
        if a[i] != b[i] {
            assert(a@[i as int] != b@[i as int]);
            return false;
        }
        i = i + 1;
    }
    assert(a@ =~= b@);
    true
}

/// The characters from `from` up to, not including, `to`.
pub fn slice(v: &Vec<char>, from: usize, to: usize) -> (res: Vec<char>)
    requires
        from <= to <= v@.len(),
    ensures
        res@ == v@.subrange(from as int, to as int),
{
    let mut out: Vec<char> = Vec::new();
    let mut i: usize = from;
    while i < to
        invariant
            from <= i <= to <= v@.len(),
            out@ == v@.subrange(from as int, i as int),
        decreases to - i,
    {
        out.push(v[i]);
        proof {
            assert(out@ =~= v@.subrange(from as int, i + 1));
        }
        i = i + 1;
    }
    out
}

/// The place of the first `c`.
pub fn find_first(v: &Vec<char>, c: char) -> (res: Option<usize>)
    ensures
        match res {
            Some(k) => v@.index_of_first(c) == Some(k as int) && k < v@.len(),
            None => v@.index_of_first(c) is None,
        },
{
    proof {
        v@.index_of_first_ensures(c);
    }
    let mut i: usize = 0;
    while i < v.len()
        invariant
            i <= v@.len(),
            forall|k: int| 0 <= k < i ==> v@[k] != c,
        decreases v@.len() - i,
    {
        if v[i] == c {
            proof {
                v@.index_of_first_ensures(c);
                assert(v@.contains(c));
            }
            return Some(i);
        }
        i = i + 1;
    }
    proof {
        v@.index_of_first_ensures(c);
    }
    None
}

/// The place of the last `c`.
pub fn find_last(v: &Vec<char>, c: char) -> (res: Option<usize>)
    ensures
        match res {
            Some(k) => v@.index_of_last(c) == Some(k as int) && k < v@.len(),
            None => v@.index_of_last(c) is None,
        },
{
    let mut i: usize = v.len();
    while i > 0
        invariant
            i <= v@.len(),
            forall|k: int| i <= k < v@.len() ==> v@[k] != c,
        decreases i,
    {
        i = i - 1;
        if v[i] == c {
            proof {
                v@.index_of_last_ensures(c);
                assert(v@.contains(c));
            }
            return Some(i);
        }
    }
    proof {
        v@.index_of_last_ensures(c);
    }
    None
}

/// What stands before the first `c`, or everything where there is none.
pub open spec fn before_first(s: Seq<char>, c: char) -> Seq<char> {
    match s.index_of_first(c) {
        Some(k) => s.take(k),
        None => s,
    }
}

/// What stands behind the last `c`, or everything where there is none.
pub open spec fn after_last(s: Seq<char>, c: char) -> Seq<char> {
    match s.index_of_last(c) {
        Some(k) => s.skip(k + 1),
        None => s,
    }
}

/// What stands before the first `c`, or everything where there is none.
pub fn head_before(v: &Vec<char>, c: char) -> (res: Vec<char>)
    ensures
        res@ == before_first(v@, c),
{
    match find_first(v, c) {
        Some(k) => slice(v, 0, k),
        None => {
            let out = slice(v, 0, v.len());
            assert(out@ =~= v@);
            out
        },
    }
}

/// What stands behind the last `c`, or everything where there is none.
pub fn tail_after(v: &Vec<char>, c: char) -> (res: Vec<char>)
    ensures
        res@ == after_last(v@, c),
{
    let n = v.len();
    match find_last(v, c) {
        Some(k) => slice(v, k + 1, n),
        None => {
            let out = slice(v, 0, v.len());
            assert(out@ =~= v@);
            out
        },
    }
}

/// The lower-case letter of an ASCII capital; any other character itself.
pub open spec fn lower_char(c: char) -> char {
    if 'A' <= c <= 'Z' {
        ((c as u32) + 32) as char
    } else {
        c
    }
}

/// The text with its ASCII capitals in lower case.
pub open spec fn ascii_lower(s: Seq<char>) -> Seq<char> {
    s.map_values(|c: char| lower_char(c))
}

/// The lower-case letter of an ASCII capital; any other character itself.
pub fn to_lower_char(c: char) -> (res: char)
    ensures
        res == lower_char(c),
{
    if 'A' <= c && c <= 'Z' {
        ((c as u8) + 32) as char
    } else {
        c
    }
}

/// The text with its ASCII capitals in lower case.
pub fn to_ascii_lower(v: &Vec<char>) -> (res: Vec<char>)
    ensures
        res@ == ascii_lower(v@),
{
    let mut out: Vec<char> = Vec::new();
    let mut i: usize = 0;
    while i < v.len()
        invariant
            i <= v@.len(),
            out@ == ascii_lower(v@.take(i as int)),
        decreases v@.len() - i,
    {
        out.push(to_lower_char(v[i]));
        proof {
            assert(out@ =~= ascii_lower(v@.take(i + 1)));
        }
        i = i + 1;
    }
    proof {
        assert(v@.take(i as int) =~= v@);
    }
    out
}

/// `needle` stands in `s` from place `at` on.
pub open spec fn occurs_at(s: Seq<char>, needle: Seq<char>, at: int) -> bool {
    0 <= at && at + needle.len() <= s.len() && s.subrange(at, at + needle.len()) == needle
}

/// `needle` stands somewhere in `s`.
pub open spec fn has(s: Seq<char>, needle: Seq<char>) -> bool {
    exists|at: int| occurs_at(s, needle, at)
}

/// Whether `needle` stands in `s` from place `at` on.
pub fn stands_at(s: &Vec<char>, needle: &Vec<char>, at: usize) -> (res: bool)
    ensures
        res == occurs_at(s@, needle@, at as int),
{
    if needle.len() > s.len() || at > s.len() - needle.len() {
        return false;
    }
    let mut i: usize = 0;
    while i < needle.len()
        invariant
            i <= needle@.len(),
            at + needle@.len() <= s.len(),
            forall|k: int| 0 <= k < i ==> s@[at + k] == needle@[k],
        decreases needle@.len() - i,
    {
        if s[at + i] != needle[i] {
            proof {
                assert(s@.subrange(at as int, at + needle@.len())[i as int] != needle@[i as int]);
            }
            return false;
        }
        i = i + 1;
    }
    assert(s@.subrange(at as int, at + needle@.len()) =~= needle@);
    true
}

/// Whether `needle` stands somewhere in `s`.
pub fn contains(s: &Vec<char>, needle: &Vec<char>) -> (res: bool)
    ensures
        res == has(s@, needle@),
{
    if needle.len() > s.len() {
        return false;
    }
    let last: usize = s.len() - needle.len();
    let mut at: usize = 0;
    loop
        invariant
            at <= last,
            last == s@.len() - needle@.len(),
            forall|k: int| 0 <= k < at ==> !occurs_at(s@, needle@, k),
        decreases last - at,
    {
        if stands_at(s, needle, at) {
            return true;
        }
        if at == last {
            return false;
        }
        at = at + 1;
    }
}

/// Whether `s` begins with `prefix`.
pub open spec fn begins(s: Seq<char>, prefix: Seq<char>) -> bool {
    occurs_at(s, prefix, 0)
}

/// A capital of the ASCII letters is lowered by 32 places, and every other character stays.
pub proof fn law_lower_case_changes_capitals_only(s: Seq<char>, i: int)
    requires
        0 <= i < s.len(),
    ensures
        ascii_lower(s).len() == s.len(),
        65 <= s[i] as int <= 90 ==> ascii_lower(s)[i] as int == s[i] as int + 32,
        !(65 <= s[i] as int <= 90) ==> ascii_lower(s)[i] == s[i],
{
}

/// A text holds another exactly where it is some text, the other one, and some text.
pub proof fn law_holding_is_standing_between(
    s: Seq<char>,
    a: Seq<char>,
    needle: Seq<char>,
    b: Seq<char>,
)
    ensures
        has(a + needle + b, needle),
        begins(needle + b, needle),
        has(s, needle) ==> exists|x: Seq<char>, y: Seq<char>| s == #[trigger] (x + needle + y),
        begins(s, needle) ==> exists|y: Seq<char>| s == #[trigger] (needle + y),
{
    assert((a + needle + b).subrange(a.len() as int, a.len() as int + needle.len()) =~= needle);
    assert(occurs_at(a + needle + b, needle, a.len() as int));
    assert((needle + b).subrange(0, needle.len() as int) =~= needle);
    if has(s, needle) {
        let at = choose|at: int| occurs_at(s, needle, at);
        let x = s.take(at);
        let y = s.skip(at + needle.len());
        assert(s =~= x + needle + y) by {
            assert(s.subrange(at, at + needle.len()) == needle);
            assert forall|i: int| at <= i < at + needle.len() implies s[i] == needle[i - at] by {
                assert(s.subrange(at, at + needle.len())[i - at] == s[i]);
            }
        }
    }
    if begins(s, needle) {
        let y = s.skip(needle.len() as int);
        assert(s =~= needle + y) by {
            assert forall|i: int| 0 <= i < needle.len() implies s[i] == needle[i] by {
                assert(s.subrange(0, needle.len() as int)[i] == s[i]);
            }
        }
    }
}

/// What stands before the first, and behind the last, of a character, where it stands between two
/// texts that do not hold it: the first text and the second one.
pub proof fn law_parts_around_a_character(a: Seq<char>, c: char, b: Seq<char>)
    ensures
        !a.contains(c) ==> before_first(a + seq![c] + b, c) == a,
        !b.contains(c) ==> after_last(a + seq![c] + b, c) == b,
        !a.contains(c) ==> before_first(a, c) == a && after_last(a, c) == a,
{
    let s = a + seq![c] + b;
    assert(s[a.len() as int] == c);
    s.index_of_first_ensures(c);
    s.index_of_last_ensures(c);
    a.index_of_first_ensures(c);
    a.index_of_last_ensures(c);
    if !a.contains(c) {
        let k = s.index_of_first(c)->0;
        if k < a.len() {
            assert(a[k] == c);
        }
        assert(s.take(a.len() as int) =~= a);
    }
    if !b.contains(c) {
        let k = s.index_of_last(c)->0;
        if k > a.len() {
            assert(b[k - a.len() - 1] == c);
        }
        assert(s.skip(a.len() as int + 1) =~= b);
    }
}

} // verus!
