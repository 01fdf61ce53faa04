//! What a server can do: the size of a file, whether ranges of it can be asked for.

use crate::download::segment::is_success;
use crate::number;
use crate::text;
use crate::types::texts;
use vstd::prelude::*;

verus! {

/// What is known of a file before it is downloaded.
#[derive(Debug)]
pub struct ProbeResult {
    /// The URL that answered.
    pub effective_url: String,
    /// How many bytes the file has.
    pub size: u64,
    /// Whether ranges of it can be asked for.
    pub supports_range: bool,
}

/// Why a server could not be probed.
#[derive(Debug, Clone, Copy, PartialEq, Eq, Structural)]
pub enum ProbeError {
    /// The server refused a HEAD request with this status.
    HeadStatus(u16),
    /// The server refused a GET request with this status.
    GetStatus(u16),
    /// The server did not tell the size of the file.
    UnknownSize,
}

/// The texts without those that repeat the one before them.
pub open spec fn deduped(s: Seq<Seq<char>>) -> Seq<Seq<char>>
    decreases s.len(),
{
    if s.len() <= 1 {
        s
    } else {
        let d = deduped(s.drop_last());
        if s.last() == s[s.len() - 2] {
            d
        } else {
            d.push(s.last())
        }
    }
}

/// The URLs to try: the first one, then its mirrors, without repeating one at once.
pub fn candidates(primary: &str, mirrors: &Vec<String>) -> (res: Vec<String>)
    ensures
        texts(res@) == deduped(seq![primary@] + texts(mirrors@)),
{
    let mut out: Vec<String> = Vec::new();
    out.push(primary.to_owned());
    let mut last: String = primary.to_owned();
    let ghost all = seq![primary@] + texts(mirrors@);
    let mut i: usize = 0;
    proof {
        assert(all.take(1) =~= seq![primary@]);
        assert(texts(out@) =~= seq![primary@]);
    }
    while i < mirrors.len()
        invariant
            i <= mirrors@.len(),
            all == seq![primary@] + texts(mirrors@),
            texts(out@) == deduped(all.take(i + 1)),
            last@ == all[i as int],
        decreases mirrors@.len() - i,
    {
        let ghost before = out@;
        let ghost next = mirrors@[i as int]@;
        proof {
            assert(all[i + 1] == next);
            assert(all.take(i + 2).drop_last() =~= all.take(i + 1));
            assert(all.take(i + 2).last() == next);
        }
        if !text::eq(last.as_str(), mirrors[i].as_str()) {
            out.push(mirrors[i].clone());
            proof {
                assert(texts(out@) =~= texts(before).push(next));
            }
        }
        last = mirrors[i].clone();
        i = i + 1;
    }
    proof {
        assert(all.take(i + 1) =~= all);
    }
    out
}

/// The total size that a Content-Range header names behind its last slash; none where it is `*`.
pub open spec fn content_range_total(value: Option<Seq<char>>) -> Option<u64> {
    match value {
        Some(v) => {
            let total = text::after_last(v, '/');
            if total == "*"@ {
                None
            } else {
                number::u64_of(total)
            }
        },
        None => None,
    }
}

/// An optional text.
pub open spec fn opt_str(o: Option<&str>) -> Option<Seq<char>> {
    match o {
        Some(s) => Some(s@),
        None => None,
    }
}

/// The total size that the Content-Range header of a response names, if it has one.
pub fn parse_content_range_total(value: Option<&str>) -> (res: Option<u64>)
    ensures
        res == content_range_total(opt_str(value)),
{
    match value {
        Some(v) => {
            let total = text::tail_after(&text::chars_of(v), '/');
            if text::same(&total, &text::chars_of("*")) {
                None
            } else {
                number::parse_u64(&total)
            }
        },
        None => None,
    }
}

/// The size that a Content-Length header names.
pub open spec fn content_length(value: Option<Seq<char>>) -> Option<u64> {
    match value {
        Some(v) => number::u64_of(v),
        None => None,
    }
}

/// The size that the Content-Length header of a response names, if it has one.
pub fn parse_content_length(value: Option<&str>) -> (res: Option<u64>)
    ensures
        res == content_length(opt_str(value)),
{
    match value {
        Some(v) => number::parse_u64(&text::chars_of(v)),
        None => None,
    }
}

/// The Accept-Ranges header offers byte ranges.
pub open spec fn offers_ranges(value: Option<Seq<char>>) -> bool {
    match value {
        Some(v) => text::ascii_lower(v) == text::ascii_lower("bytes"@),
        None => false,
    }
}

/// Whether the Accept-Ranges header of a response offers byte ranges.
pub fn accepts_ranges(value: Option<&str>) -> (res: bool)
    ensures
        res == offers_ranges(opt_str(value)),
{
    match value {
        Some(v) => text::same(
            &text::to_ascii_lower(&text::chars_of(v)),
            &text::to_ascii_lower(&text::chars_of("bytes")),
        ),
        None => false,
    }
}

/// What a HEAD request tells.
#[derive(Debug, Clone, Copy, PartialEq, Eq, Structural)]
pub struct HeadFacts {
    /// Byte ranges are offered.
    pub accept_ranges: bool,
    /// The size of the file.
    pub size: Option<u64>,
}

/// What a response to a HEAD request tells; a status that is no success ends the probe.
pub fn read_head(status: u16, accept: Option<&str>, length: Option<&str>) -> (res: Result<
    HeadFacts,
    ProbeError,
>)
    ensures
        res == if is_success(status) {
            Ok::<HeadFacts, ProbeError>(
                HeadFacts {
                    accept_ranges: offers_ranges(opt_str(accept)),
                    size: content_length(opt_str(length)),
                },
            )
        } else {
            Err(ProbeError::HeadStatus(status))
        },
{
    if 200 <= status && status < 300 {
        Ok(
            HeadFacts {
                accept_ranges: accepts_ranges(accept),
                size: parse_content_length(length),
            },
        )
    } else {
        Err(ProbeError::HeadStatus(status))
    }
}

/// The first of two sizes that is known.
pub open spec fn known(a: Option<u64>, b: Option<u64>) -> Option<u64> {
    match a {
        Some(n) => Some(n),
        None => b,
    }
}

/// The size that the response to a request for the first byte tells: that of the whole file where
/// the range was served or ignored, none where the request was refused.
pub open spec fn range_size(
    status: u16,
    content_range: Option<Seq<char>>,
    head_size: Option<u64>,
    body_size: Option<u64>,
) -> Option<u64> {
    if status == 206 {
        known(content_range_total(content_range), known(head_size, body_size))
    } else if is_success(status) {
        known(head_size, body_size)
    } else {
        None
    }
}

/// The size that the response to a request for the first byte tells.
pub fn read_range(
    status: u16,
    content_range: Option<&str>,
    head_size: Option<u64>,
    body_size: Option<u64>,
) -> (res: Option<u64>)
    ensures
        res == range_size(status, opt_str(content_range), head_size, body_size),
{
    if status == 206 {
        if let Some(total) = parse_content_range_total(content_range) {
            return Some(total);
        }
        if let Some(len) = head_size {
            return Some(len);
        }
        return body_size;
    }
    if 200 <= status && status < 300 {
        return match head_size {
            Some(len) => Some(len),
            None => body_size,
        };
    }
    None
}

/// What the probe comes to once the range request was answered: the size, and whether ranges can be
/// asked for. Nothing where a plain GET request has to tell the size.
pub open spec fn probe_outcome(head: HeadFacts, range: Option<u64>) -> Option<(u64, bool)> {
    match range {
        Some(size) => Some((size, head.accept_ranges)),
        None => match head.size {
            Some(size) => Some((size, false)),
            None => None,
        },
    }
}

/// What the probe comes to once the range request was answered.
pub fn conclude(url: &str, head: HeadFacts, range: Option<u64>) -> (res: Option<ProbeResult>)
    ensures
        match res {
            Some(p) => probe_outcome(head, range) == Some((p.size, p.supports_range))
                && p.effective_url@ == url@,
            None => probe_outcome(head, range) is None,
        },
{
    if head.accept_ranges {
        if let Some(size) = range {
            return Some(
                ProbeResult { effective_url: url.to_owned(), size, supports_range: true },
            );
        }
    }
    if let Some(size) = range {
        return Some(ProbeResult { effective_url: url.to_owned(), size, supports_range: false });
    }
    if let Some(size) = head.size {
        return Some(ProbeResult { effective_url: url.to_owned(), size, supports_range: false });
    }
    None
}

/// What the probe comes to where only a plain GET request told the size.
pub fn read_get(url: &str, status: u16, length: Option<&str>) -> (res: Result<
    ProbeResult,
    ProbeError,
>)
    ensures
        match res {
            Ok(p) => is_success(status) && content_length(opt_str(length)) == Some(p.size)
                && !p.supports_range && p.effective_url@ == url@,
            Err(ProbeError::GetStatus(s)) => !is_success(status) && s == status,
            Err(ProbeError::UnknownSize) => is_success(status) && content_length(
                opt_str(length),
            ) is None,
            Err(ProbeError::HeadStatus(_)) => false,
        },
{
    if !(200 <= status && status < 300) {
        return Err(ProbeError::GetStatus(status));
    }
    match parse_content_length(length) {
        Some(size) => Ok(
            ProbeResult { effective_url: url.to_owned(), size, supports_range: false },
        ),
        None => Err(ProbeError::UnknownSize),
    }
}

/// What follows the probe of one of several URLs.
#[derive(Debug, Clone, Copy, PartialEq, Eq, Structural)]
pub enum ProbeStep {
    /// The URL answered: its result counts.
    Done,
    /// Probe the URL at that place.
    Next(usize),
    /// None answered: the last failure is reported.
    Fail,
}

/// Says what follows the probe of the URL at place `tried` of `total`, where `ok` says whether it
/// answered.
pub fn after_probe(tried: usize, total: usize, ok: bool) -> (res: ProbeStep)
    ensures
        ok ==> res == ProbeStep::Done,
        !ok && tried + 1 < total ==> res == ProbeStep::Next((tried + 1) as usize),
        !ok && tried + 1 >= total ==> res == ProbeStep::Fail,
{
    if ok {
        ProbeStep::Done
    } else if tried < total && tried + 1 < total {
        ProbeStep::Next(tried + 1)
    } else {
        ProbeStep::Fail
    }
}

/// Ranges are used only where the server offered them and answered a request for one with a success.
pub proof fn law_ranges_need_an_offer_and_an_answer(
    head: HeadFacts,
    status: u16,
    content_range: Option<Seq<char>>,
    body_size: Option<u64>,
)
    ensures
        probe_outcome(head, range_size(status, content_range, head.size, body_size)) matches Some(p)
            && p.1 ==> head.accept_ranges && is_success(status),
{
}

proof fn lemma_deduped_last(s: Seq<Seq<char>>)
    ensures
        s.len() > 0 ==> deduped(s).len() > 0 && deduped(s).last() == s.last() && deduped(s)[0]
            == s[0],
        deduped(s).len() <= s.len(),
    decreases s.len(),
{
    if s.len() > 1 {
        lemma_deduped_last(s.drop_last());
        assert(s.drop_last().last() == s[s.len() - 2]);
        assert(s.drop_last()[0] == s[0]);
    }
}

/// The URLs that are tried begin with the first one, hold every one that was named and no other, and
/// repeat none at once; a list that repeats none at once is tried as it is.
pub proof fn law_every_url_is_tried(s: Seq<Seq<char>>, i: int, url: Seq<char>)
    ensures
        s.len() > 0 ==> deduped(s).len() > 0 && deduped(s)[0] == s[0],
        deduped(s).contains(url) <==> s.contains(url),
        0 <= i < deduped(s).len() - 1 ==> deduped(s)[i] != deduped(s)[i + 1],
        (forall|k: int| 0 <= k < s.len() - 1 ==> #[trigger] s[k] != s[k + 1]) ==> deduped(s) == s,
    decreases s.len(),
{
    lemma_deduped_last(s);
    if s.len() > 1 {
        let d = s.drop_last();
        law_every_url_is_tried(d, i, url);
        lemma_deduped_last(d);
        assert(d.last() == s[s.len() - 2]);
        assert(s.contains(url) <==> d.contains(url) || s.last() == url) by {
            if s.contains(url) {
                let k = choose|k: int| 0 <= k < s.len() && s[k] == url;
                if k < d.len() {
                    assert(d[k] == url);
                }
            }
            if d.contains(url) {
                let k = choose|k: int| 0 <= k < d.len() && d[k] == url;
                assert(s[k] == url);
            }
            if s.last() == url {
                assert(s[s.len() - 1] == url);
            }
        }
        if s.last() == s[s.len() - 2] {
            if s.last() == url {
                assert(d[d.len() - 1] == url);
            }
        } else {
            let r = deduped(d).push(s.last());
            assert(r.contains(url) <==> deduped(d).contains(url) || s.last() == url) by {
                if r.contains(url) {
                    let k = choose|k: int| 0 <= k < r.len() && r[k] == url;
                    if k < deduped(d).len() {
                        assert(deduped(d)[k] == url);
                    }
                }
                if deduped(d).contains(url) {
                    let k = choose|k: int| 0 <= k < deduped(d).len() && deduped(d)[k] == url;
                    assert(r[k] == url);
                }
                if s.last() == url {
                    assert(r[r.len() - 1] == url);
                }
            }
        }
        if forall|k: int| 0 <= k < s.len() - 1 ==> #[trigger] s[k] != s[k + 1] {
            assert forall|k: int| 0 <= k < d.len() - 1 implies #[trigger] d[k] != d[k + 1] by {
                assert(s[k] != s[k + 1]);
            }
            assert(s[s.len() - 2] != s[s.len() - 2 + 1]);
            assert(d.push(s.last()) =~= s);
        }
    }
}

/// A Content-Range header tells the size of the file behind its last slash; a star there, or no
/// header, tells none.
pub proof fn law_size_stands_behind_the_slash(range: Seq<char>, total: Seq<char>)
    requires
        !total.contains('/'),
    ensures
        total != "*"@ ==> content_range_total(Some(range + seq!['/'] + total)) == number::u64_of(
            total,
        ),
        total == "*"@ ==> content_range_total(Some(range + seq!['/'] + total)) is None,
        content_range_total(None) is None,
        content_length(Some(total)) == number::u64_of(total),
        content_length(None) is None,
{
    text::law_parts_around_a_character(range, '/', total);
}

/// Ranges are offered by the word `bytes`, in whatever letter case, and by nothing else.
pub proof fn law_bytes_offer_ranges(v: Seq<char>)
    ensures
        offers_ranges(Some(v)) <==> v.len() == 5 && (v[0] == 'b' || v[0] == 'B') && (v[1] == 'y'
            || v[1] == 'Y') && (v[2] == 't' || v[2] == 'T') && (v[3] == 'e' || v[3] == 'E') && (v[4]
            == 's' || v[4] == 'S'),
        !offers_ranges(None),
{
    reveal_strlit("bytes");
    let low = text::ascii_lower(v);
    let b = text::ascii_lower("bytes"@);
    assert(b =~= seq!['b', 'y', 't', 'e', 's']);
    if v.len() == 5 {
        assert(low[0] == text::lower_char(v[0]) && low[1] == text::lower_char(v[1]) && low[2]
            == text::lower_char(v[2]) && low[3] == text::lower_char(v[3]) && low[4]
            == text::lower_char(v[4]));
        if offers_ranges(Some(v)) {
            assert(low[0] == 'b' && low[1] == 'y' && low[2] == 't' && low[3] == 'e' && low[4]
                == 's');
        }
        if (v[0] == 'b' || v[0] == 'B') && (v[1] == 'y' || v[1] == 'Y') && (v[2] == 't' || v[2]
            == 'T') && (v[3] == 'e' || v[3] == 'E') && (v[4] == 's' || v[4] == 'S') {
            assert(low =~= b);
        }
    } else {
        assert(low.len() == v.len());
    }
}

/// The size of a file is the one that the answer to a range request tells, or else that of the HEAD
/// request, or else that of the body; a refused range request tells none, and the file is then
/// fetched whole. Ranges are used exactly where they were offered and a size was told.
pub proof fn law_the_first_size_that_is_told_counts(
    status: u16,
    total: Seq<char>,
    head: HeadFacts,
    body: Option<u64>,
)
    requires
        !total.contains('/'),
        number::u64_of(total) is Some,
        total != "*"@,
    ensures
        ({
            let told = number::u64_of(total);
            let with_total = range_size(status, Some(total), head.size, body);
            let without = range_size(status, None, head.size, body);
            let second = if head.size is Some {
                head.size
            } else {
                body
            };
            &&& status == 206 ==> with_total == told && without == second
            &&& status != 206 && 200 <= status <= 299 ==> with_total == second && without == second
            &&& status < 200 || status > 299 ==> with_total is None && without is None
        }),
        forall|n: u64| #[trigger]
            probe_outcome(head, Some(n)) == Some((n, head.accept_ranges)),
        probe_outcome(head, None) == match head.size {
            Some(n) => Some((n, false)),
            None => None,
        },
{
    text::law_parts_around_a_character(total, '/', total);
}

/// A URL that is the same as the one right before it is left out; one that comes again behind another
/// is tried again.
pub proof fn law_only_neighbours_are_left_out(s: Seq<Seq<char>>, u: Seq<char>, w: Seq<char>)
    ensures
        deduped(s.push(u).push(u)) == deduped(s.push(u)),
        u != w ==> deduped(s.push(u).push(w)) == deduped(s.push(u)).push(w),
        u != w ==> deduped(s.push(u).push(w).push(u)) == deduped(s.push(u)).push(w).push(u),
{
    let a = s.push(u);
    let b = a.push(u);
    let c = a.push(w);
    let d = c.push(u);
    assert(b.drop_last() =~= a && c.drop_last() =~= a && d.drop_last() =~= c);
    assert(b[b.len() - 2] == u && c[c.len() - 2] == u && d[d.len() - 2] == w);
    if u != w {
        assert(deduped(c) == deduped(a).push(w));
        assert(d.last() != d[d.len() - 2]);
        assert(deduped(d) == deduped(d.drop_last()).push(u));
    }
}

} // verus!
