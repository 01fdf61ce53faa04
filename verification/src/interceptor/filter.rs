//! Which captured requests are kept.

use crate::interceptor::types::{CapturedRequest, FilterView, RequestFilter, RequestView};
use crate::text;
use regex::Regex;
use vstd::prelude::*;

verus! {

/// Whether the text is a regular expression.
pub uninterp spec fn regex_valid(pattern: Seq<char>) -> bool;

/// Whether the regular expression matches somewhere in the text.
pub uninterp spec fn regex_matches(pattern: Seq<char>, s: Seq<char>) -> bool;

/// `Regex::new` accepts the text as a regular expression or does not, depending on the text alone.
#[verifier::external_body]
fn is_regex(pattern: &str) -> (res: bool)
    ensures
        res == regex_valid(pattern@),
{
    Regex::new(pattern).is_ok()
}

/// `Regex::is_match` says whether a regular expression matches somewhere in a text, which depends on
/// the two alone.
#[verifier::external_body]
fn regex_is_match(pattern: &str, s: &str) -> (res: bool)
    requires
        regex_valid(pattern@),
    ensures
        res == regex_matches(pattern@, s@),
{
    Regex::new(pattern).unwrap().is_match(s)
}

/// What a regular expression says of a text: nothing where it is none.
#[derive(Debug, Clone, Copy, PartialEq, Eq, Structural)]
pub enum Verdict {
    /// It is not a regular expression.
    Invalid,
    /// It matches.
    Match,
    /// It does not match, or there is no text.
    NoMatch,
}

/// What the regular expression of a filter says of a part of a request.
pub open spec fn verdict_of(pattern: Seq<char>, part: Option<Seq<char>>) -> Verdict {
    if !regex_valid(pattern) {
        Verdict::Invalid
    } else {
        match part {
            Some(s) => if regex_matches(pattern, s) {
                Verdict::Match
            } else {
                Verdict::NoMatch
            },
            None => Verdict::NoMatch,
        }
    }
}

/// What the optional regular expression of a filter says of a part of a request.
pub open spec fn opt_verdict(
    pattern: Option<Seq<char>>,
    part: Option<Seq<char>>,
) -> Option<Verdict> {
    match pattern {
        Some(p) => Some(verdict_of(p, part)),
        None => None,
    }
}

/// A part of a request is there and holds the text.
pub open spec fn part_has(part: Option<Seq<char>>, word: Seq<char>) -> bool {
    match part {
        Some(s) => text::has(s, word),
        None => false,
    }
}

/// The request meets the criteria of the filter, given what its regular expressions say. A criterion
/// that is not set, and an expression that is none, let everything pass.
pub open spec fn kept(
    r: RequestView,
    f: FilterView,
    url: Option<Verdict>,
    content_type: Option<Verdict>,
) -> bool {
    &&& f.domain matches Some(d) ==> part_has(r.host, d)
    &&& f.method matches Some(m) ==> r.method == Some(m)
    &&& f.content_type matches Some(c) ==> part_has(r.content_type, c)
    &&& url != Some(Verdict::NoMatch)
    &&& content_type != Some(Verdict::NoMatch)
    &&& f.min_size matches Some(n) ==> r.payload_size >= n
    &&& f.max_size matches Some(n) ==> r.payload_size <= n
}

/// The request passes the filter.
pub open spec fn passes(r: RequestView, f: FilterView) -> bool {
    kept(
        r,
        f,
        opt_verdict(f.url_regex, r.url),
        opt_verdict(f.content_type_regex, r.content_type),
    )
}

fn holds(part: &Option<String>, word: &String) -> (res: bool)
    ensures
        res == part_has(crate::types::opt_text(*part), word@),
{
    match part {
        Some(s) => text::contains(&text::chars_of(s.as_str()), &text::chars_of(word.as_str())),
        None => false,
    }
}

fn judge(pattern: &Option<String>, part: &Option<String>) -> (res: Option<Verdict>)
    ensures
        res == opt_verdict(crate::types::opt_text(*pattern), crate::types::opt_text(*part)),
{
    match pattern {
        Some(p) => if !is_regex(p.as_str()) {
            Some(Verdict::Invalid)
        } else {
            match part {
                Some(s) => if regex_is_match(p.as_str(), s.as_str()) {
                    Some(Verdict::Match)
                } else {
                    Some(Verdict::NoMatch)
                },
                None => Some(Verdict::NoMatch),
            }
        },
        None => None,
    }
}

/// Whether a request meets the criteria of a filter, given what its regular expressions say.
pub fn meets_criteria(
    request: &CapturedRequest,
    filter: &RequestFilter,
    url: Option<Verdict>,
    content_type: Option<Verdict>,
) -> (res: bool)
    ensures
        res == kept(request@, filter@, url, content_type),
{
    if let Some(domain) = &filter.domain {
        if !holds(&request.host, domain) {
            return false;
        }
    }
    if let Some(method) = &filter.method {
        let same = match &request.method {
            Some(m) => text::eq(m.as_str(), method.as_str()),
            None => false,
        };
        if !same {
            return false;
        }
    }
    if let Some(c) = &filter.content_type {
        if !holds(&request.content_type, c) {
            return false;
        }
    }
    if let Some(Verdict::NoMatch) = url {
        return false;
    }
    if let Some(Verdict::NoMatch) = content_type {
        return false;
    }
    if let Some(min_size) = filter.min_size {
        if request.payload_size < min_size {
            return false;
        }
    }
    if let Some(max_size) = filter.max_size {
        if request.payload_size > max_size {
            return false;
        }
    }
    true
}

/// Whether a request passes a filter.
pub fn matches_filter(request: &CapturedRequest, filter: &RequestFilter) -> (res: bool)
    ensures
        res == passes(request@, filter@),
{
    let url = judge(&filter.url_regex, &request.url);
    let content_type = judge(&filter.content_type_regex, &request.content_type);
    meets_criteria(request, filter, url, content_type)
}

/// A filter without criteria keeps every request.
pub proof fn law_empty_filter_keeps_everything(r: RequestView)
    ensures
        passes(r, crate::interceptor::types::no_filter()),
{
}

/// An expression that cannot be compiled filters nothing out.
pub proof fn law_invalid_expression_is_ignored(r: RequestView, f: FilterView, pattern: Seq<char>)
    requires
        !regex_valid(pattern),
    ensures
        passes(r, FilterView { url_regex: Some(pattern), ..f }) == passes(
            r,
            FilterView { url_regex: None, ..f },
        ),
        passes(r, FilterView { content_type_regex: Some(pattern), ..f }) == passes(
            r,
            FilterView { content_type_regex: None, ..f },
        ),
{
}

/// A request passes a filter exactly where it meets every criterion that is set: its host holds the
/// domain, its method is the method, its content type holds the content type, its URL and its content
/// type match the expressions that are ones, and its length lies between the two lengths.
pub proof fn law_every_criterion_is_met(r: RequestView, f: FilterView)
    ensures
        passes(r, f) <==> {
            &&& f.domain is Some ==> r.host is Some && text::has(r.host->0, f.domain->0)
            &&& f.method is Some ==> r.method == f.method
            &&& f.content_type is Some ==> r.content_type is Some && text::has(
                r.content_type->0,
                f.content_type->0,
            )
            &&& f.url_regex is Some && regex_valid(f.url_regex->0) ==> r.url is Some
                && regex_matches(f.url_regex->0, r.url->0)
            &&& f.content_type_regex is Some && regex_valid(f.content_type_regex->0)
                ==> r.content_type is Some && regex_matches(
                f.content_type_regex->0,
                r.content_type->0,
            )
            &&& f.min_size is Some ==> f.min_size->0 <= r.payload_size
            &&& f.max_size is Some ==> r.payload_size <= f.max_size->0
        },
{
}

/// One more criterion never lets a request pass that did not pass before.
pub proof fn law_criteria_only_narrow(r: RequestView, f: FilterView, domain: Seq<char>, n: usize)
    ensures
        f.domain is None && passes(r, FilterView { domain: Some(domain), ..f }) ==> passes(r, f),
        f.min_size is None && passes(r, FilterView { min_size: Some(n), ..f }) ==> passes(r, f),
        f.max_size is None && passes(r, FilterView { max_size: Some(n), ..f }) ==> passes(r, f),
{
}

} // verus!
