//! White space, lines and words of a text, and letter case.

use crate::text;
use vstd::prelude::*;

verus! {

/// The character has the Unicode property White_Space.
pub open spec fn is_space(c: char) -> bool {
    let n = c as u32;
    0x09 <= n <= 0x0d || n == 0x20 || n == 0x85 || n == 0xa0 || n == 0x1680 || 0x2000 <= n <= 0x200a
        || n == 0x2028 || n == 0x2029 || n == 0x202f || n == 0x205f || n == 0x3000
}

/// Whether the character has the Unicode property White_Space.
pub fn is_whitespace(c: char) -> (res: bool)
    ensures
        res == is_space(c),
{
    let n: u32 = c as u32;
    (0x09 <= n && n <= 0x0d) || n == 0x20 || n == 0x85 || n == 0xa0 || n == 0x1680 || (0x2000 <= n
        && n <= 0x200a) || n == 0x2028 || n == 0x2029 || n == 0x202f || n == 0x205f || n == 0x3000
}

/// The text without the white space at its start.
pub open spec fn trim_start(s: Seq<char>) -> Seq<char>
    decreases s.len(),
{
    if s.len() > 0 && is_space(s[0]) {
        trim_start(s.skip(1))
    } else {
        s
    }
}

/// The text without the white space at its end.
pub open spec fn trim_end(s: Seq<char>) -> Seq<char>
    decreases s.len(),
{
    if s.len() > 0 && is_space(s.last()) {
        trim_end(s.drop_last())
    } else {
        s
    }
}

/// The text without the white space at its start and its end.
pub open spec fn trim_of(s: Seq<char>) -> Seq<char> {
    trim_end(trim_start(s))
}

/// The text without the white space at its start and its end.
pub fn trim(v: &Vec<char>) -> (res: Vec<char>)
    ensures
        res@ == trim_of(v@),
{
    let mut from: usize = 0;
    assert(v@.skip(0) =~= v@);
    while from < v.len() && is_whitespace(v[from])
        invariant
            from <= v@.len(),
            trim_start(v@.skip(from as int)) == trim_start(v@),
        decreases v@.len() - from,
    {
        assert(v@.skip(from as int).skip(1) =~= v@.skip(from + 1));
        from = from + 1;
    }
    let ghost rest = v@.skip(from as int);
    assert(rest == trim_start(v@));
    let mut to: usize = v.len();
    assert(v@.subrange(from as int, to as int) =~= rest);
    while to > from && is_whitespace(v[to - 1])
        invariant
            from <= to <= v@.len(),
            trim_end(v@.subrange(from as int, to as int)) == trim_end(rest),
        decreases to - from,
    {
        assert(v@.subrange(from as int, to as int).drop_last() =~= v@.subrange(
            from as int,
            to - 1,
        ));
        to = to - 1;
    }
    text::slice(v, from, to)
}

/// The text without a carriage return at its end.
pub open spec fn without_cr(s: Seq<char>) -> Seq<char> {
    if s.len() > 0 && s.last() == '\r' {
        s.drop_last()
    } else {
        s
    }
}

/// The lines of the text, without the line feed, or carriage return and line feed, that ends each.
pub open spec fn lines_of(s: Seq<char>) -> Seq<Seq<char>>
    decreases s.len(),
{
    if s.len() == 0 {
        Seq::empty()
    } else {
        match s.index_of_first('\n') {
            Some(k) => if 0 <= k < s.len() {
                seq![without_cr(s.take(k))] + lines_of(s.skip(k + 1))
            } else {
                Seq::empty()
            },
            None => seq![s],
        }
    }
}

/// The texts of some character vectors.
pub open spec fn views(v: Seq<Vec<char>>) -> Seq<Seq<char>> {
    v.map_values(|c: Vec<char>| c@)
}

/// The lines of the text.
pub fn lines(v: &Vec<char>) -> (res: Vec<Vec<char>>)
    ensures
        views(res@) == lines_of(v@),
{
    let mut out: Vec<Vec<char>> = Vec::new();
    let mut from: usize = 0;
    assert(v@.skip(0) =~= v@);
    assert(views(out@) =~= Seq::empty());
    assert(views(out@) + lines_of(v@) =~= lines_of(v@));
    while from < v.len()
        invariant
            from <= v@.len(),
            views(out@) + lines_of(v@.skip(from as int)) == lines_of(v@),
        decreases v@.len() - from,
    {
        let ghost rest = v@.skip(from as int);
        let tail = text::slice(v, from, v.len());
        assert(tail@ =~= rest);
        let n = v.len();
        match text::find_first(&tail, '\n') {
            Some(k) => {
                let end: usize = if k > 0 && tail[k - 1] == '\r' {
                    k - 1
                } else {
                    k
                };
                let line = text::slice(&tail, 0, end);
                let ghost before = out@;
                out.push(line);
                proof {
                    rest.index_of_first_ensures('\n');
                    assert(line@ =~= without_cr(rest.take(k as int)));
                    assert(rest.skip(k + 1) =~= v@.skip(from + k + 1));
                    assert(views(out@) =~= views(before).push(line@));
                    assert(views(out@) + lines_of(rest.skip(k + 1)) =~= views(before) + (
                    seq![line@] + lines_of(rest.skip(k + 1))));
                }
                from = from + k + 1;
            },
            None => {
                let ghost before = out@;
                out.push(tail);
                proof {
                    assert(views(out@) =~= views(before).push(rest));
                    assert(views(before) + seq![rest] =~= views(before).push(rest));
                    assert(v@.skip(n as int) =~= Seq::empty());
                    assert(views(out@) + lines_of(v@.skip(n as int)) =~= views(out@));
                }
                from = n;
            },
        }
    }
    proof {
        assert(v@.skip(from as int) =~= Seq::empty());
        assert(views(out@) + lines_of(v@.skip(from as int)) =~= views(out@));
    }
    out
}

/// How many characters stand before the first white space.
pub open spec fn run_length(s: Seq<char>) -> nat
    decreases s.len(),
{
    if s.len() == 0 || is_space(s[0]) {
        0
    } else {
        1 + run_length(s.skip(1))
    }
}

/// The words of the text: what stands between its white space.
pub open spec fn words_of(s: Seq<char>) -> Seq<Seq<char>>
    decreases s.len(),
{
    if s.len() == 0 {
        Seq::empty()
    } else if is_space(s[0]) {
        words_of(s.skip(1))
    } else {
        let n = run_length(s);
        if 0 < n <= s.len() {
            seq![s.take(n as int)] + words_of(s.skip(n as int))
        } else {
            Seq::empty()
        }
    }
}

proof fn lemma_run(s: Seq<char>, n: int)
    requires
        0 <= n <= s.len(),
        forall|i: int| 0 <= i < n ==> !is_space(#[trigger] s[i]),
        n == s.len() || is_space(s[n]),
    ensures
        run_length(s) == n,
    decreases n,
{
    if n > 0 {
        assert(!is_space(s[0]));
        assert forall|i: int| 0 <= i < n - 1 implies !is_space(#[trigger] s.skip(1)[i]) by {
            assert(s.skip(1)[i] == s[i + 1]);
        }
        lemma_run(s.skip(1), n - 1);
    }
}

/// The words of the text: what stands between its white space.
pub fn split_whitespace(v: &Vec<char>) -> (res: Vec<Vec<char>>)
    ensures
        views(res@) == words_of(v@),
{
    let mut out: Vec<Vec<char>> = Vec::new();
    let mut from: usize = 0;
    assert(v@.skip(0) =~= v@);
    assert(views(out@) =~= Seq::empty());
    assert(views(out@) + words_of(v@) =~= words_of(v@));
    while from < v.len()
        invariant
            from <= v@.len(),
            views(out@) + words_of(v@.skip(from as int)) == words_of(v@),
        decreases v@.len() - from,
    {
        let ghost rest = v@.skip(from as int);
        if is_whitespace(v[from]) {
            assert(rest.skip(1) =~= v@.skip(from + 1));
            from = from + 1;
        } else {
            let mut to: usize = from + 1;
            while to < v.len() && !is_whitespace(v[to])
                invariant
                    from < to <= v@.len(),
                    forall|i: int| from <= i < to ==> !is_space(#[trigger] v@[i]),
                decreases v@.len() - to,
            {
                to = to + 1;
            }
            let word = text::slice(v, from, to);
            let ghost n = to - from;
            let ghost before = out@;
            proof {
                assert forall|i: int| 0 <= i < n implies !is_space(#[trigger] rest[i]) by {
                    assert(rest[i] == v@[from + i]);
                }
                if n < rest.len() {
                    assert(rest[n] == v@[to as int]);
                }
                lemma_run(rest, n);
                assert(word@ =~= rest.take(n));
                assert(rest.skip(n) =~= v@.skip(to as int));
            }
            out.push(word);
            proof {
                assert(views(out@) =~= views(before).push(word@));
                assert(views(out@) + words_of(rest.skip(n)) =~= views(before) + (seq![word@]
                    + words_of(rest.skip(n))));
            }
            from = to;
        }
    }
    proof {
        assert(v@.skip(from as int) =~= Seq::empty());
        assert(views(out@) + words_of(v@.skip(from as int)) =~= views(out@));
    }
    out
}

/// The text is all ASCII.
pub open spec fn all_ascii(s: Seq<char>) -> bool {
    forall|i: int| 0 <= i < s.len() ==> (#[trigger] s[i]) as u32 <= 127
}

/// The text in lower case, as Unicode defines it.
pub uninterp spec fn unicode_lower(s: Seq<char>) -> Seq<char>;

/// `str::to_lowercase` gives the text in lower case, which depends on the text alone; of ASCII text
/// it changes the capital letters and nothing else.
#[verifier::external_body]
pub(crate) fn to_lowercase(s: &str) -> (res: String)
    ensures
        res@ == unicode_lower(s@),
        all_ascii(s@) ==> res@ == text::ascii_lower(s@),
{
    s.to_lowercase()
}

/// The capital of an ASCII letter in lower case; any other character itself.
pub open spec fn upper_char(c: char) -> char {
    if 'a' <= c <= 'z' {
        ((c as u32) - 32) as char
    } else {
        c
    }
}

/// The text with its ASCII letters as capitals.
pub open spec fn ascii_upper(s: Seq<char>) -> Seq<char> {
    s.map_values(|c: char| upper_char(c))
}

/// The text in upper case, as Unicode defines it.
pub uninterp spec fn unicode_upper(s: Seq<char>) -> Seq<char>;

/// `str::to_uppercase` gives the text in upper case, which depends on the text alone; of ASCII text
/// it changes the small letters and nothing else.
#[verifier::external_body]
pub(crate) fn to_uppercase(s: &str) -> (res: String)
    ensures
        res@ == unicode_upper(s@),
        all_ascii(s@) ==> res@ == ascii_upper(s@),
{
    s.to_uppercase()
}

/// Of the ASCII characters the blank, the tab, the line feed, the vertical tab, the form feed and the
/// carriage return are white space, and none of the others is.
pub proof fn law_ascii_white_space(c: char)
    requires
        c as int <= 127,
    ensures
        is_space(c) <==> c as int == 32 || 9 <= c as int <= 13,
{
}

proof fn lemma_trim_start_over(a: Seq<char>, s: Seq<char>)
    requires
        forall|i: int| 0 <= i < a.len() ==> is_space(#[trigger] a[i]),
    ensures
        trim_start(a + s) == trim_start(s),
    decreases a.len(),
{
    if a.len() > 0 {
        assert((a + s)[0] == a[0]);
        assert((a + s).skip(1) =~= a.skip(1) + s);
        assert forall|i: int| 0 <= i < a.skip(1).len() implies is_space(
            #[trigger] a.skip(1)[i],
        ) by {
            assert(a.skip(1)[i] == a[i + 1]);
        }
        lemma_trim_start_over(a.skip(1), s);
    } else {
        assert(a + s =~= s);
    }
}

proof fn lemma_trim_end_over(s: Seq<char>, b: Seq<char>)
    requires
        forall|i: int| 0 <= i < b.len() ==> is_space(#[trigger] b[i]),
    ensures
        trim_end(s + b) == trim_end(s),
    decreases b.len(),
{
    if b.len() > 0 {
        assert((s + b).last() == b.last());
        assert((s + b).drop_last() =~= s + b.drop_last());
        lemma_trim_end_over(s, b.drop_last());
    } else {
        assert(s + b =~= s);
    }
}

/// To trim a text takes the white space off its ends, all of it, and nothing else.
pub proof fn law_trim_takes_white_space_off(a: Seq<char>, s: Seq<char>, b: Seq<char>)
    requires
        forall|i: int| 0 <= i < a.len() ==> is_space(#[trigger] a[i]),
        forall|i: int| 0 <= i < b.len() ==> is_space(#[trigger] b[i]),
        s.len() > 0 ==> !is_space(s[0]) && !is_space(s.last()),
    ensures
        trim_of(a + s + b) == s,
{
    assert(a + s + b =~= a + (s + b));
    lemma_trim_start_over(a, s + b);
    if s.len() > 0 {
        assert((s + b)[0] == s[0]);
        lemma_trim_end_over(s, b);
    } else {
        assert(s + b =~= b + Seq::<char>::empty());
        lemma_trim_start_over(b, Seq::empty());
        assert(s =~= Seq::<char>::empty());
    }
}

/// What trimming leaves stands in the text as it is, and neither begins nor ends with white space.
pub proof fn law_trimmed_text_stands_in_the_text(s: Seq<char>) -> (at: int)
    ensures
        0 <= at,
        at + trim_of(s).len() <= s.len(),
        trim_of(s) == s.subrange(at, at + trim_of(s).len()),
        trim_of(s).len() > 0 ==> !is_space(trim_of(s)[0]) && !is_space(trim_of(s).last()),
{
    let at = lemma_trim_start_part(s);
    let t = trim_start(s);
    lemma_trim_end_part(t);
    assert(trim_of(s) =~= s.subrange(at, at + trim_of(s).len()));
    at
}

proof fn lemma_trim_start_part(s: Seq<char>) -> (at: int)
    ensures
        0 <= at <= s.len(),
        trim_start(s) == s.skip(at),
        trim_start(s).len() > 0 ==> !is_space(trim_start(s)[0]),
    decreases s.len(),
{
    if s.len() > 0 && is_space(s[0]) {
        let k = lemma_trim_start_part(s.skip(1));
        assert(s.skip(1).skip(k) =~= s.skip(k + 1));
        k + 1
    } else {
        assert(s.skip(0) =~= s);
        0
    }
}

proof fn lemma_trim_end_part(s: Seq<char>)
    ensures
        trim_end(s).len() <= s.len(),
        trim_end(s) == s.take(trim_end(s).len() as int),
        trim_end(s).len() > 0 ==> !is_space(trim_end(s).last()),
    decreases s.len(),
{
    if s.len() > 0 && is_space(s.last()) {
        lemma_trim_end_part(s.drop_last());
        let n = trim_end(s).len() as int;
        assert(s.drop_last().take(n) =~= s.take(n));
    } else {
        assert(s.take(s.len() as int) =~= s);
    }
}

/// The first line of a text ends at its first line feed, with or without a carriage return before it;
/// what follows are the lines of the rest. A text without a line feed is one line.
pub proof fn law_lines_end_at_line_feeds(line: Seq<char>, rest: Seq<char>)
    requires
        !line.contains('\n'),
        line.len() == 0 || line.last() != '\r',
    ensures
        lines_of(line + seq!['\n'] + rest) == seq![line] + lines_of(rest),
        lines_of(line + seq!['\r', '\n'] + rest) == seq![line] + lines_of(rest),
        line.len() > 0 ==> lines_of(line) == seq![line],
        lines_of(Seq::<char>::empty()).len() == 0,
{
    let a = line + seq!['\n'] + rest;
    lemma_first_feed(line, rest);
    assert(a.take(line.len() as int) =~= line);
    let b = line + seq!['\r', '\n'] + rest;
    let l2 = line.push('\r');
    assert(!l2.contains('\n')) by {
        assert forall|i: int| 0 <= i < l2.len() implies l2[i] != '\n' by {
            if i < line.len() {
                assert(line.contains(line[i]));
            }
        }
    }
    assert(b =~= l2 + seq!['\n'] + rest);
    lemma_first_feed(l2, rest);
    assert(l2.drop_last() =~= line);
    line.index_of_first_ensures('\n');
}

proof fn lemma_first_feed(line: Seq<char>, rest: Seq<char>)
    requires
        !line.contains('\n'),
    ensures
        ({
            let s = line + seq!['\n'] + rest;
            &&& s.index_of_first('\n') == Some(line.len() as int)
            &&& s.take(line.len() as int) == line
            &&& s.skip(line.len() as int + 1) == rest
            &&& lines_of(s) == seq![without_cr(line)] + lines_of(rest)
        }),
{
    let s = line + seq!['\n'] + rest;
    assert(s[line.len() as int] == '\n');
    s.index_of_first_ensures('\n');
    let k = s.index_of_first('\n')->0;
    if k < line.len() {
        assert(line[k] == '\n');
    }
    assert(s.take(line.len() as int) =~= line);
    assert(s.skip(line.len() as int + 1) =~= rest);
}

/// A text that ends with a line feed has its lines, and what is written behind it has its own.
pub proof fn law_lines_go_on_behind_a_line_feed(s: Seq<char>, t: Seq<char>)
    requires
        s.len() > 0,
        s.last() == '\n',
    ensures
        lines_of(s + t) == lines_of(s) + lines_of(t),
    decreases s.len(),
{
    s.index_of_first_ensures('\n');
    assert(s.contains('\n')) by {
        assert(s[s.len() - 1] == '\n');
    }
    let k = s.index_of_first('\n')->0;
    let line = s.take(k);
    let rest = s.skip(k + 1);
    assert(!line.contains('\n')) by {
        assert forall|i: int| 0 <= i < line.len() implies line[i] != '\n' by {
            assert(line[i] == s[i]);
        }
    }
    assert(s =~= line + seq!['\n'] + rest);
    assert(s + t =~= line + seq!['\n'] + (rest + t));
    lemma_first_feed(line, rest);
    lemma_first_feed(line, rest + t);
    if rest.len() > 0 {
        assert(rest.last() == s.last());
        law_lines_go_on_behind_a_line_feed(rest, t);
        assert(seq![without_cr(line)] + (lines_of(rest) + lines_of(t)) =~= seq![without_cr(line)]
            + lines_of(rest) + lines_of(t));
    } else {
        assert(rest + t =~= t);
        assert(lines_of(rest) =~= Seq::empty());
        assert(seq![without_cr(line)] + lines_of(t) =~= seq![without_cr(line)] + lines_of(rest)
            + lines_of(t));
    }
}

/// The first word of a text ends before its first white space, and the others are those of the rest;
/// white space before a word does not count.
pub proof fn law_words_end_at_white_space(word: Seq<char>, space: char, rest: Seq<char>)
    requires
        is_space(space),
        word.len() > 0,
        forall|i: int| 0 <= i < word.len() ==> !is_space(#[trigger] word[i]),
    ensures
        words_of(word + seq![space] + rest) == seq![word] + words_of(rest),
        words_of(seq![space] + rest) == words_of(rest),
        words_of(word) == seq![word],
        words_of(Seq::<char>::empty()).len() == 0,
{
    reveal_with_fuel(words_of, 3);
    let s = word + seq![space] + rest;
    let n = word.len() as int;
    assert(s[n] == space);
    assert forall|i: int| 0 <= i < n implies !is_space(#[trigger] s[i]) by {
        assert(s[i] == word[i]);
    }
    lemma_run(s, n);
    assert(s.take(n) =~= word);
    assert(s.skip(n) =~= seq![space] + rest);
    assert((seq![space] + rest).skip(1) =~= rest);
    assert(!is_space(s[0]));
    lemma_run(word, n);
    assert(!is_space(word[0]));
    assert(word.take(n) =~= word);
    assert(word.skip(n) =~= Seq::empty());
    assert(seq![word] + Seq::<Seq<char>>::empty() =~= seq![word]);
}

/// Beyond ASCII the 19 other characters that Unicode calls white space are white space, and no others.
pub proof fn law_unicode_white_space(c: char)
    requires
        c as int > 127,
    ensures
        is_space(c) <==> c == '\u{85}' || c == '\u{a0}' || c == '\u{1680}' || '\u{2000}' <= c
            <= '\u{200a}' || c == '\u{2028}' || c == '\u{2029}' || c == '\u{202f}' || c == '\u{205f}'
            || c == '\u{3000}',
{
}

/// A text without a line feed is one line as it stands, a carriage return at its end included; an empty
/// text has none.
pub proof fn law_the_last_line_keeps_its_carriage_return(s: Seq<char>)
    requires
        !s.contains('\n'),
    ensures
        s.len() > 0 ==> lines_of(s) == seq![s],
        s.len() == 0 ==> lines_of(s).len() == 0,
{
    s.index_of_first_ensures('\n');
}

} // verus!
