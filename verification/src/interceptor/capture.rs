//! The buffer of captured requests, and the interface that is listened to.

use crate::interceptor::filter::{matches_filter, passes};
use crate::interceptor::signal;
use crate::interceptor::types::{
    CapturedRequest, InterceptorConfig, RequestFilter, RequestView, no_filter,
};
use crate::number;
use crate::text;
use crate::types::opt_text;
use vstd::prelude::*;

verus! {

/// How many requests are kept; the oldest goes where one more comes.
pub const MAX_CAPTURED: usize = 10000;

/// The traffic that is captured.
pub const CAPTURE_FILTER: &'static str = "tcp port 80 or tcp port 443";

/// A network interface, as far as the choice among several looks at it.
#[derive(Debug)]
pub struct Interface {
    pub name: String,
    /// It has an IPv4 or IPv6 address.
    pub has_address: bool,
}

/// The interface is not a loopback and has an address.
pub open spec fn usable(i: Interface) -> bool {
    i.name@ != "lo"@ && !text::begins(i.name@, "Loopback"@) && i.has_address
}

/// The first usable interface, or else the first of all.
pub open spec fn default_interface(list: Seq<Interface>) -> Option<int> {
    if exists|k: int| first_usable(list, k) {
        Some(choose|k: int| first_usable(list, k))
    } else if list.len() > 0 {
        Some(0)
    } else {
        None
    }
}

/// The `k`-th interface is the first that is usable.
pub open spec fn first_usable(list: Seq<Interface>, k: int) -> bool {
    0 <= k < list.len() && usable(list[k]) && forall|j: int|
        0 <= j < k ==> !usable(#[trigger] list[j])
}

/// Which interface to listen to where none is named.
pub fn find_default_interface(list: &Vec<Interface>) -> (res: Option<usize>)
    ensures
        match res {
            Some(k) => default_interface(list@) == Some(k as int) && k < list@.len(),
            None => default_interface(list@) is None && list@.len() == 0,
        },
{
    let mut i: usize = 0;
    while i < list.len()
        invariant
            i <= list@.len(),
            forall|j: int| 0 <= j < i ==> !usable(#[trigger] list@[j]),
        decreases list@.len() - i,
    {
        let name = text::chars_of(list[i].name.as_str());
        let loopback = text::eq(list[i].name.as_str(), "lo") || text::stands_at(
            &name,
            &text::chars_of("Loopback"),
            0,
        );
        if !loopback && list[i].has_address {
            proof {
                assert(usable(list@[i as int]));
                assert(first_usable(list@, i as int));
                let m = choose|k: int| first_usable(list@, k);
                assert(first_usable(list@, m));
                assert(m == i);
            }
            return Some(i);
        }
        i = i + 1;
    }
    proof {
        assert forall|k: int| !first_usable(list@, k) by {
            if first_usable(list@, k) {
                assert(!usable(list@[k]));
            }
        }
    }
    if list.len() > 0 {
        Some(0)
    } else {
        None
    }
}

/// The interface has the name and no one before it has.
pub open spec fn first_named(list: Seq<Interface>, name: Seq<char>, k: int) -> bool {
    0 <= k < list.len() && list[k].name@ == name && forall|j: int|
        0 <= j < k ==> (#[trigger] list[j]).name@ != name
}

/// Which interface has the name.
pub fn find_interface(list: &Vec<Interface>, name: &str) -> (res: Option<usize>)
    ensures
        match res {
            Some(k) => first_named(list@, name@, k as int),
            None => forall|j: int| 0 <= j < list@.len() ==> (#[trigger] list@[j]).name@ != name@,
        },
{
    let mut i: usize = 0;
    while i < list.len()
        invariant
            i <= list@.len(),
            forall|j: int| 0 <= j < i ==> (#[trigger] list@[j]).name@ != name@,
        decreases list@.len() - i,
    {
        if text::eq(list[i].name.as_str(), name) {
            return Some(i);
        }
        i = i + 1;
    }
    None
}

/// What some requests hold.
pub open spec fn request_views(v: Seq<CapturedRequest>) -> Seq<RequestView> {
    v.map_values(|r: CapturedRequest| r@)
}

/// The buffer after one more request came: the oldest goes where it was full.
pub open spec fn buffered(v: Seq<RequestView>, r: RequestView) -> Seq<RequestView> {
    if v.len() >= MAX_CAPTURED {
        v.drop_first().push(r)
    } else {
        v.push(r)
    }
}

/// The part of a request in a report, or what stands for it where it is missing.
pub open spec fn part_or(part: Option<Seq<char>>, missing: Seq<char>) -> Seq<char> {
    match part {
        Some(s) => s,
        None => missing,
    }
}

/// An address with its port.
pub open spec fn endpoint(ip: Seq<char>, port: u16) -> Seq<char> {
    ip + ":"@ + number::decimal(port as nat)
}

/// The line that reports a request behind a tag.
pub open spec fn report_line(tag: Seq<char>, r: RequestView) -> Seq<char> {
    tag + part_or(r.method, "UNKNOWN"@) + " "@ + part_or(r.url, "-"@) + " from "@ + endpoint(
        r.source_ip,
        r.source_port,
    ) + " to "@ + endpoint(r.destination_ip, r.destination_port)
}

/// The part of a request, or what stands for it where it is missing.
pub fn part_text<'a>(part: &'a Option<String>, missing: &'a str) -> (res: &'a str)
    ensures
        res@ == part_or(opt_text(*part), missing@),
{
    match part {
        Some(s) => s.as_str(),
        None => missing,
    }
}

/// The line that reports a request behind a tag.
pub fn report(tag: &str, r: &CapturedRequest) -> (res: String)
    ensures
        res@ == report_line(tag@, r@),
{
    let mut line = tag.to_owned();
    line.append(part_text(&r.method, "UNKNOWN"));
    line.append(" ");
    line.append(part_text(&r.url, "-"));
    line.append(" from ");
    line.append(r.source_ip.as_str());
    line.append(":");
    line.append(text::string_of(&number::to_decimal(r.source_port as u128)).as_str());
    line.append(" to ");
    line.append(r.destination_ip.as_str());
    line.append(":");
    line.append(text::string_of(&number::to_decimal(r.destination_port as u128)).as_str());
    proof {
        assert(line@ =~= report_line(tag@, r@));
    }
    line
}

/// The lines that are printed for a captured request: itself, and the sign of a stream where its URL
/// and content type are one.
pub open spec fn capture_lines(r: RequestView) -> Seq<Seq<char>> {
    let line = report_line("[CAPTURED] "@, r);
    match (r.url, r.content_type) {
        (Some(url), Some(ct)) => match signal::signal_line(url, ct) {
            Some(s) => seq![line, s],
            None => seq![line],
        },
        _ => seq![line],
    }
}

/// The lines that are printed for a captured request.
pub fn captured_lines(r: &CapturedRequest) -> (res: Vec<String>)
    ensures
        crate::types::texts(res@) == capture_lines(r@),
{
    let mut out: Vec<String> = Vec::new();
    out.push(report("[CAPTURED] ", r));
    if let Some(url) = &r.url {
        if let Some(ct) = &r.content_type {
            if let Some(line) = signal::analyze_signal(url.clone(), ct.clone()) {
                out.push(line);
            }
        }
    }
    proof {
        assert(crate::types::texts(out@) =~= capture_lines(r@));
    }
    out
}

/// The line that reports a request which was handed in by hand.
pub fn handle_request(req: CapturedRequest) -> (res: String)
    ensures
        res@ == report_line("[REQUEST] "@, req@),
{
    report("[REQUEST] ", &req)
}

/// Captures requests and keeps those that pass a filter.
pub struct Interceptor {
    pub config: InterceptorConfig,
    pub captured_requests: Vec<CapturedRequest>,
    pub filter: RequestFilter,
    pub running: bool,
}

impl Interceptor {
    /// An interceptor that has captured nothing, keeps everything and does not run.
    pub fn new(config: InterceptorConfig) -> (res: Self)
        ensures
            res.config == config,
            res.captured_requests@.len() == 0,
            res.filter@ == no_filter(),
            !res.running,
    {
        Interceptor {
            config,
            captured_requests: Vec::new(),
            filter: RequestFilter::default(),
            running: false,
        }
    }

    /// Marks the interceptor as running, and says whether a capture loop is to be started: not where
    /// one runs already.
    pub fn start(&mut self) -> (res: bool)
        ensures
            res == !old(self).running,
            *final(self) == (Interceptor { running: true, ..*old(self) }),
    {
        if self.running {
            return false;
        }
        self.running = true;
        true
    }

    /// Marks the interceptor as stopped.
    pub fn stop(&mut self)
        ensures
            *final(self) == (Interceptor { running: false, ..*old(self) }),
    {
        self.running = false;
    }

    /// Whether the interceptor is running.
    pub fn is_running(&self) -> (res: bool)
        ensures
            res == self.running,
    {
        self.running
    }

    /// Takes in a request: it is kept where it passes the filter, and the lines to print for it are
    /// given back.
    pub fn record(&mut self, request: CapturedRequest) -> (res: Option<Vec<String>>)
        ensures
            final(self).config == old(self).config,
            final(self).filter == old(self).filter,
            final(self).running == old(self).running,
            passes(request@, old(self).filter@) ==> {
                &&& request_views(final(self).captured_requests@) == buffered(
                    request_views(old(self).captured_requests@),
                    request@,
                )
                &&& res matches Some(lines) && crate::types::texts(lines@) == capture_lines(
                    request@,
                )
            },
            !passes(request@, old(self).filter@) ==> res is None && final(self).captured_requests
                == old(self).captured_requests,
    {
        if !matches_filter(&request, &self.filter) {
            return None;
        }
        let lines = captured_lines(&request);
        let ghost before = self.captured_requests@;
        if self.captured_requests.len() >= MAX_CAPTURED {
            self.captured_requests.remove(0);
        }
        self.captured_requests.push(request);
        proof {
            assert(request_views(self.captured_requests@) =~= buffered(
                request_views(before),
                request@,
            ));
        }
        Some(lines)
    }

    /// All requests that are kept, oldest first.
    pub fn get_all_requests(&self) -> (res: Vec<CapturedRequest>)
        ensures
            request_views(res@) == request_views(self.captured_requests@),
    {
        let mut out: Vec<CapturedRequest> = Vec::new();
        let mut i: usize = 0;
        while i < self.captured_requests.len()
            invariant
                i <= self.captured_requests@.len(),
                request_views(out@) == request_views(self.captured_requests@.take(i as int)),
            decreases self.captured_requests@.len() - i,
        {
            let ghost before = out@;
            out.push(self.captured_requests[i].clone());
            proof {
                assert(request_views(out@) =~= request_views(before).push(
                    self.captured_requests@[i as int]@,
                ));
                assert(request_views(self.captured_requests@.take(i + 1)) =~= request_views(
                    self.captured_requests@.take(i as int),
                ).push(self.captured_requests@[i as int]@));
            }
            i = i + 1;
        }
        proof {
            assert(self.captured_requests@.take(i as int) =~= self.captured_requests@);
        }
        out
    }

    /// The requests that are kept and pass a filter, oldest first.
    pub fn get_filtered_requests(&self, filter: RequestFilter) -> (res: Vec<CapturedRequest>)
        ensures
            request_views(res@) == request_views(self.captured_requests@).filter(
                |r: RequestView| passes(r, filter@),
            ),
    {
        select(&self.captured_requests, &filter)
    }

    /// Drops all requests.
    pub fn clear(&mut self)
        ensures
            final(self).captured_requests@.len() == 0,
            final(self).config == old(self).config,
            final(self).filter == old(self).filter,
            final(self).running == old(self).running,
    {
        self.captured_requests.clear();
    }

    /// Sets the filter for the requests to come.
    pub fn set_filter(&mut self, filter: RequestFilter)
        ensures
            *final(self) == (Interceptor { filter, ..*old(self) }),
    {
        self.filter = filter;
    }

    /// How many requests are kept.
    pub fn count(&self) -> (res: usize)
        ensures
            res == self.captured_requests@.len(),
    {
        self.captured_requests.len()
    }
}

/// The requests that pass a filter, in their order.
pub fn select(list: &Vec<CapturedRequest>, filter: &RequestFilter) -> (res: Vec<CapturedRequest>)
    ensures
        request_views(res@) == request_views(list@).filter(|r: RequestView| passes(r, filter@)),
{
    let mut out: Vec<CapturedRequest> = Vec::new();
    let ghost p = |r: RequestView| passes(r, filter@);
    let ghost all = request_views(list@);
    let mut i: usize = 0;
    proof {
        reveal(Seq::filter);
        assert(all.take(0) =~= Seq::empty());
        assert(request_views(out@) =~= all.take(0).filter(p));
    }
    while i < list.len()
        invariant
            i <= list@.len(),
            all == request_views(list@),
            p == (|r: RequestView| passes(r, filter@)),
            request_views(out@) == all.take(i as int).filter(p),
        decreases list@.len() - i,
    {
        let ghost before = out@;
        let keep = matches_filter(&list[i], filter);
        if keep {
            out.push(list[i].clone());
        }
        proof {
            reveal(Seq::filter);
            assert(all[i as int] == list@[i as int]@);
            assert(all.take(i + 1).drop_last() =~= all.take(i as int));
            assert(all.take(i + 1).last() == all[i as int]);
            if keep {
                assert(request_views(out@) =~= request_views(before).push(list@[i as int]@));
            }
        }
        i = i + 1;
    }
    proof {
        assert(all.take(i as int) =~= all);
    }
    out
}

/// The buffer never holds more than its limit, and what it drops is the oldest.
pub proof fn law_buffer_is_bounded(v: Seq<RequestView>, r: RequestView)
    requires
        v.len() <= MAX_CAPTURED,
    ensures
        buffered(v, r).len() <= MAX_CAPTURED,
        buffered(v, r).last() == r,
        v.len() < MAX_CAPTURED ==> buffered(v, r).drop_last() == v,
        v.len() == MAX_CAPTURED ==> buffered(v, r).drop_last() == v.drop_first(),
{
    assert(v.push(r).drop_last() =~= v);
    assert(v.drop_first().push(r).drop_last() =~= v.drop_first());
}

/// The newest request is always kept, behind all others. The buffer holds 10000; only where it is full
/// does the oldest one go, and no other.
pub proof fn law_the_newest_requests_are_kept(v: Seq<RequestView>, r: RequestView)
    requires
        v.len() <= 10000,
    ensures
        buffered(v, r).len() <= 10000,
        buffered(v, r).last() == r,
        v.len() < 10000 ==> buffered(v, r).drop_last() == v,
        v.len() == 10000 ==> buffered(v, r).drop_last() == v.skip(1),
{
    if v.len() < 10000 {
        assert(v.push(r).drop_last() =~= v);
    } else {
        assert(v.drop_first().push(r).drop_last() =~= v.skip(1));
    }
}

/// Where no interface is named, the first one is listened to that has an address and is no loopback;
/// where there is none such, the first of all.
pub proof fn law_the_first_usable_interface_is_taken(list: Seq<Interface>, k: int)
    requires
        0 <= k < list.len(),
    ensures
        ({
            let ok = |i: Interface|
                i.has_address && i.name@ != "lo"@ && !text::begins(i.name@, "Loopback"@);
            &&& ok(list[k]) && (forall|j: int| 0 <= j < k ==> !ok(#[trigger] list[j]))
                ==> default_interface(list) == Some(k)
            &&& (forall|j: int| 0 <= j < list.len() ==> !ok(#[trigger] list[j]))
                ==> default_interface(list) == Some(0int)
        }),
{
    let ok = |i: Interface|
        i.has_address && i.name@ != "lo"@ && !text::begins(i.name@, "Loopback"@);
    if ok(list[k]) && (forall|j: int| 0 <= j < k ==> !ok(#[trigger] list[j])) {
        assert(first_usable(list, k)) by {
            assert forall|j: int| 0 <= j < k implies !usable(#[trigger] list[j]) by {
                assert(!ok(list[j]));
            }
        }
        let m = choose|m: int| first_usable(list, m);
        assert(first_usable(list, m));
        assert(m == k);
    }
    if forall|j: int| 0 <= j < list.len() ==> !ok(#[trigger] list[j]) {
        assert forall|m: int| !first_usable(list, m) by {
            if first_usable(list, m) {
                assert(!ok(list[m]));
            }
        }
    }
}

/// The line of a request names its method, its URL and its two ends, each with its port.
pub proof fn law_report_lines_name_both_ends(tag: Seq<char>, r: RequestView)
    ensures
        report_line(tag, r) == tag + (if r.method is Some {
            r.method->0
        } else {
            "UNKNOWN"@
        }) + " "@ + (if r.url is Some {
            r.url->0
        } else {
            "-"@
        }) + " from "@ + (r.source_ip + ":"@ + number::decimal(r.source_port as nat)) + " to "@ + (
        r.destination_ip + ":"@ + number::decimal(r.destination_port as nat)),
        capture_lines(r)[0] == report_line("[CAPTURED] "@, r),
        capture_lines(r).len() == if r.url is Some && r.content_type is Some && signal::signal_line(
            r.url->0,
            r.content_type->0,
        ) is Some {
            2nat
        } else {
            1nat
        },
{
}

/// An interface is found under its name, the first one where several have it.
pub proof fn law_the_first_of_a_name_is_found(list: Seq<Interface>, name: Seq<char>, k: int, m: int)
    requires
        first_named(list, name, k),
        0 <= m < list.len(),
        list[m].name@ == name,
    ensures
        list[k].name@ == name,
        0 <= k <= m,
{
}

} // verus!
