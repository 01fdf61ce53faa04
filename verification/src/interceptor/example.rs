//! A demonstration on made-up requests, for machines on which no packets can be captured.

use crate::interceptor::capture::{
    capture_lines, captured_lines, part_or, part_text, request_views, select,
};
use crate::interceptor::filter::passes;
use crate::interceptor::types::{
    CapturedRequest, FilterView, Headers, RequestFilter, RequestView, no_filter,
};
use crate::number;
use crate::text;
use crate::types::texts;
use vstd::prelude::*;

verus! {

/// A made-up request from the local machine.
pub open spec fn sample(
    id: Seq<char>,
    timestamp: u64,
    to: Seq<char>,
    ports: (u16, u16),
    method: Seq<char>,
    url: Seq<char>,
    host: Seq<char>,
    user_agent: Seq<char>,
    content_type: Seq<char>,
    sizes: (u64, usize),
    field: (Seq<char>, Seq<char>),
) -> RequestView {
    RequestView {
        id,
        timestamp,
        source_ip: "192.168.1.100"@,
        destination_ip: to,
        source_port: ports.0,
        destination_port: ports.1,
        protocol: "TCP"@,
        method: Some(method),
        url: Some(url),
        host: Some(host),
        user_agent: Some(user_agent),
        content_type: Some(content_type),
        content_length: Some(sizes.0),
        headers: Map::<Seq<char>, Seq<char>>::empty().insert("host"@, host).insert(
            field.0,
            field.1,
        ),
        payload_size: sizes.1,
    }
}

/// The made-up requests.
pub open spec fn samples() -> Seq<RequestView> {
    seq![
        sample(
            "1"@,
            0,
            "142.250.185.78"@,
            (54321, 443),
            "GET"@,
            "/video/stream.m3u8"@,
            "example.com"@,
            "Mozilla/5.0"@,
            "application/vnd.apple.mpegurl"@,
            (1024, 512),
            ("user-agent"@, "Mozilla/5.0"@),
        ),
        sample(
            "2"@,
            1,
            "172.217.14.206"@,
            (54322, 80),
            "GET"@,
            "/index.html"@,
            "google.com"@,
            "Chrome/120.0"@,
            "text/html"@,
            (2048, 1024),
            ("accept"@, "text/html"@),
        ),
        sample(
            "3"@,
            2,
            "151.101.1.140"@,
            (54323, 443),
            "POST"@,
            "/api/data"@,
            "api.example.com"@,
            "curl/7.68.0"@,
            "application/json"@,
            (512, 256),
            ("content-type"@, "application/json"@),
        ),
    ]
}

fn make_sample(
    id: &str,
    timestamp: u64,
    to: &str,
    ports: (u16, u16),
    method: &str,
    url: &str,
    host: &str,
    user_agent: &str,
    content_type: &str,
    sizes: (u64, usize),
    field: (&str, &str),
) -> (res: CapturedRequest)
    ensures
        res@ == sample(
            id@,
            timestamp,
            to@,
            ports,
            method@,
            url@,
            host@,
            user_agent@,
            content_type@,
            sizes,
            (field.0@, field.1@),
        ),
{
    let mut headers = Headers::new();
    headers.insert("host".to_owned(), host.to_owned());
    headers.insert(field.0.to_owned(), field.1.to_owned());
    CapturedRequest {
        id: id.to_owned(),
        timestamp,
        source_ip: "192.168.1.100".to_owned(),
        destination_ip: to.to_owned(),
        source_port: ports.0,
        destination_port: ports.1,
        protocol: "TCP".to_owned(),
        method: Some(method.to_owned()),
        url: Some(url.to_owned()),
        host: Some(host.to_owned()),
        user_agent: Some(user_agent.to_owned()),
        content_type: Some(content_type.to_owned()),
        content_length: Some(sizes.0),
        headers,
        payload_size: sizes.1,
    }
}

/// The made-up requests.
pub fn sample_requests() -> (res: Vec<CapturedRequest>)
    ensures
        request_views(res@) == samples(),
{
    let mut out: Vec<CapturedRequest> = Vec::new();
    out.push(
        make_sample(
            "1",
            0,
            "142.250.185.78",
            (54321, 443),
            "GET",
            "/video/stream.m3u8",
            "example.com",
            "Mozilla/5.0",
            "application/vnd.apple.mpegurl",
            (1024, 512),
            ("user-agent", "Mozilla/5.0"),
        ),
    );
    out.push(
        make_sample(
            "2",
            1,
            "172.217.14.206",
            (54322, 80),
            "GET",
            "/index.html",
            "google.com",
            "Chrome/120.0",
            "text/html",
            (2048, 1024),
            ("accept", "text/html"),
        ),
    );
    out.push(
        make_sample(
            "3",
            2,
            "151.101.1.140",
            (54323, 443),
            "POST",
            "/api/data",
            "api.example.com",
            "curl/7.68.0",
            "application/json",
            (512, 256),
            ("content-type", "application/json"),
        ),
    );
    proof {
        assert(request_views(out@) =~= samples());
    }
    out
}

/// The lines that are printed for some captured requests.
pub open spec fn all_capture_lines(v: Seq<RequestView>) -> Seq<Seq<char>>
    decreases v.len(),
{
    if v.len() == 0 {
        Seq::empty()
    } else {
        all_capture_lines(v.drop_last()) + capture_lines(v.last())
    }
}

/// The line of a request that passed the filter.
pub open spec fn item_line(r: RequestView) -> Seq<char> {
    "  - "@ + part_or(r.method, "-"@) + " "@ + part_or(r.url, "-"@)
}

/// A filter that asks for a domain alone.
pub open spec fn domain_filter(domain: Seq<char>) -> FilterView {
    FilterView { domain: Some(domain), ..no_filter() }
}

/// The lines of a demonstration on some requests, which are then filtered by a domain.
pub open spec fn demo_lines(v: Seq<RequestView>, domain: Seq<char>) -> Seq<Seq<char>> {
    let kept = v.filter(|r: RequestView| passes(r, domain_filter(domain)));
    seq!["=== Simulating Network Request Capture ==="@, ""@] + all_capture_lines(v) + seq![
        ""@,
        "=== Testing Filter ==="@,
        "Requests matching domain '"@ + domain + "': "@ + number::decimal(kept.len()),
    ] + kept.map_values(|r: RequestView| item_line(r)) + seq![
        ""@,
        "=== Summary ==="@,
        "Total simulated requests: "@ + number::decimal(v.len()),
        "Test completed successfully!"@,
    ]
}

fn append_capture_lines(lines: &mut Vec<String>, requests: &Vec<CapturedRequest>)
    ensures
        texts(final(lines)@) == texts(old(lines)@) + all_capture_lines(request_views(requests@)),
{
    let ghost start = texts(lines@);
    let ghost all = request_views(requests@);
    let mut i: usize = 0;
    proof {
        assert(start + all_capture_lines(all.take(0)) =~= start);
    }
    while i < requests.len()
        invariant
            i <= requests@.len(),
            all == request_views(requests@),
            texts(lines@) == start + all_capture_lines(all.take(i as int)),
        decreases requests@.len() - i,
    {
        let ghost before = texts(lines@);
        let mut more = captured_lines(&requests[i]);
        let ghost fresh = texts(more@);
        lines.append(&mut more);
        proof {
            assert(texts(lines@) =~= before + fresh);
            assert(all[i as int] == requests@[i as int]@);
            assert(all.take(i + 1).drop_last() =~= all.take(i as int));
            assert(all.take(i + 1).last() == all[i as int]);
            assert(texts(lines@) =~= start + all_capture_lines(all.take(i + 1)));
        }
        i = i + 1;
    }
    proof {
        assert(all.take(i as int) =~= all);
    }
}

fn append_items(lines: &mut Vec<String>, requests: &Vec<CapturedRequest>)
    ensures
        texts(final(lines)@) == texts(old(lines)@) + request_views(requests@).map_values(
            |r: RequestView| item_line(r),
        ),
{
    let ghost start = texts(lines@);
    let ghost all = request_views(requests@);
    let ghost line = |r: RequestView| item_line(r);
    let mut i: usize = 0;
    proof {
        assert(start + all.take(0).map_values(line) =~= start);
    }
    while i < requests.len()
        invariant
            i <= requests@.len(),
            all == request_views(requests@),
            line == (|r: RequestView| item_line(r)),
            texts(lines@) == start + all.take(i as int).map_values(line),
        decreases requests@.len() - i,
    {
        let ghost before = texts(lines@);
        let mut item = "  - ".to_owned();
        item.append(part_text(&requests[i].method, "-"));
        item.append(" ");
        item.append(part_text(&requests[i].url, "-"));
        lines.push(item);
        proof {
            let r = requests@[i as int]@;
            assert(all[i as int] == r);
            assert(texts(lines@) =~= before.push(item_line(r)));
            assert(texts(lines@) =~= start + all.take(i + 1).map_values(line));
        }
        i = i + 1;
    }
    proof {
        assert(all.take(i as int) =~= all);
    }
}

/// The lines of a demonstration on some requests, which are then filtered by a domain.
pub fn demonstrate(requests: &Vec<CapturedRequest>, domain: &str) -> (res: Vec<String>)
    ensures
        texts(res@) == demo_lines(request_views(requests@), domain@),
{
    let mut filter = RequestFilter::default();
    filter.domain = Some(domain.to_owned());
    let kept = select(requests, &filter);
    let ghost v = request_views(requests@);
    let ghost kept_views = v.filter(|r: RequestView| passes(r, domain_filter(domain@)));
    proof {
        let a = |r: RequestView| passes(r, filter@);
        let b = |r: RequestView| passes(r, domain_filter(domain@));
        assert(filter@ == domain_filter(domain@));
        assert(a =~= b);
        assert(request_views(kept@).len() == kept@.len());
        assert(v.len() == requests@.len());
    }
    let mut lines: Vec<String> = Vec::new();
    lines.push("=== Simulating Network Request Capture ===".to_owned());
    lines.push("".to_owned());
    let ghost part0 = seq!["=== Simulating Network Request Capture ==="@, ""@];
    assert(texts(lines@) =~= part0);
    append_capture_lines(&mut lines, requests);
    let ghost part1 = texts(lines@);
    let mut count = "Requests matching domain '".to_owned();
    count.append(domain);
    count.append("': ");
    let n: usize = kept.len();
    count.append(text::string_of(&number::to_decimal(n as u128)).as_str());
    lines.push("".to_owned());
    lines.push("=== Testing Filter ===".to_owned());
    lines.push(count);
    assert(texts(lines@) =~= part1 + seq![
        ""@,
        "=== Testing Filter ==="@,
        "Requests matching domain '"@ + domain@ + "': "@ + number::decimal(kept_views.len()),
    ]);
    append_items(&mut lines, &kept);
    let ghost part2 = texts(lines@);
    let mut total = "Total simulated requests: ".to_owned();
    let m: usize = requests.len();
    total.append(text::string_of(&number::to_decimal(m as u128)).as_str());
    lines.push("".to_owned());
    lines.push("=== Summary ===".to_owned());
    lines.push(total);
    lines.push("Test completed successfully!".to_owned());
    assert(texts(lines@) =~= part2 + seq![
        ""@,
        "=== Summary ==="@,
        "Total simulated requests: "@ + number::decimal(v.len()),
        "Test completed successfully!"@,
    ]);
    lines
}

/// The lines of a demonstration on the made-up requests.
pub fn simulate_capture() -> (res: Vec<String>)
    ensures
        texts(res@) == demo_lines(samples(), "example.com"@),
{
    demonstrate(&sample_requests(), "example.com")
}

/// The demonstration prints what the capture of each request would, one after the other.
pub proof fn law_lines_follow_each_other(a: Seq<RequestView>, b: Seq<RequestView>, r: RequestView)
    ensures
        all_capture_lines(seq![r]) == capture_lines(r),
        all_capture_lines(a + b) == all_capture_lines(a) + all_capture_lines(b),
    decreases b.len(),
{
    assert(seq![r].drop_last() =~= Seq::<RequestView>::empty());
    assert(all_capture_lines(Seq::<RequestView>::empty()) =~= Seq::<Seq<char>>::empty());
    assert(all_capture_lines(seq![r]) =~= capture_lines(r));
    if b.len() > 0 {
        law_lines_follow_each_other(a, b.drop_last(), r);
        assert((a + b).drop_last() =~= a + b.drop_last());
        assert(all_capture_lines(a + b) =~= all_capture_lines(a) + all_capture_lines(b));
    } else {
        assert(a + b =~= a);
        assert(all_capture_lines(a + b) =~= all_capture_lines(a) + all_capture_lines(b));
    }
}

/// A filter by a domain keeps the requests whose host holds it, and the demonstration counts them and
/// prints a line for each.
pub proof fn law_demonstrations_keep_the_domain(
    v: Seq<RequestView>,
    domain: Seq<char>,
    r: RequestView,
    i: int,
)
    ensures
        ({
            let kept = v.filter(|r: RequestView| passes(r, domain_filter(domain)));
            let lines = demo_lines(v, domain);
            let n = all_capture_lines(v).len() as int;
            &&& kept.contains(r) <==> v.contains(r) && r.host is Some && text::has(
                r.host->0,
                domain,
            )
            &&& lines.len() == 9 + n + kept.len()
            &&& lines.subrange(2, 2 + n) == all_capture_lines(v)
            &&& lines[n + 4] == "Requests matching domain '"@ + domain + "': "@ + number::decimal(
                kept.len(),
            )
            &&& 0 <= i < kept.len() && kept[i].method is Some && kept[i].url is Some ==> lines[n + 5
                + i] == "  - "@ + kept[i].method->0 + " "@ + kept[i].url->0
            &&& lines[lines.len() - 2] == "Total simulated requests: "@ + number::decimal(v.len())
        }),
{
    let keep = |r: RequestView| passes(r, domain_filter(domain));
    let kept = v.filter(keep);
    let lines = demo_lines(v, domain);
    let n = all_capture_lines(v).len() as int;
    if kept.contains(r) {
        let k = choose|k: int| 0 <= k < kept.len() && kept[k] == r;
        v.lemma_filter_pred(keep, k);
        v.lemma_filter_contains_rev(keep, r);
    }
    if v.contains(r) && keep(r) {
        let k = choose|k: int| 0 <= k < v.len() && v[k] == r;
        v.lemma_filter_contains(keep, k);
    }
    assert(lines.subrange(2, 2 + n) =~= all_capture_lines(v));
}

} // verus!
