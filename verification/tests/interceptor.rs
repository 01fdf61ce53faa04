use warp::interceptor::capture::{
    captured_lines, find_default_interface, find_interface, handle_request, report, select,
    Interceptor, Interface, MAX_CAPTURED,
};
use warp::interceptor::example::{demonstrate, sample_requests, simulate_capture};
use warp::interceptor::filter::{matches_filter, meets_criteria, Verdict};
use warp::interceptor::npcap_check::{
    check_npcap_installed, driver_action, driver_answer, driver_installed, driver_message,
    driver_paths, ensure_npcap_or_error, DriverAction,
};
use warp::interceptor::parser::{
    generate_id, parse_frame, parse_http_request, parse_packet, parse_tcp_packet,
    parse_udp_packet, Ends,
};
use warp::interceptor::signal::{analyze_signal, classify, Signal};
use warp::interceptor::types::{CapturedRequest, Headers, InterceptorConfig, RequestFilter};

#[test]
fn test_parse_http_request() {
    let http = "GET /video/stream.m3u8 HTTP/1.1\r\nHost: example.com\r\nUser-Agent: Test\r\n\r\n";
    let parsed = parse_http_request(http);

    assert!(parsed.is_some());
    let req = parsed.unwrap();
    assert_eq!(req.method, Some("GET".to_string()));
    assert_eq!(req.url, Some("/video/stream.m3u8".to_string()));
    assert_eq!(req.host, Some("example.com".to_string()));
}

#[test]
fn header_fields_are_read_by_name() {
    let r = parse_http_request(
        "POST /x HTTP/1.1\r\nHOST: a\r\nContent-Type:  text/plain \r\nContent-Length: 12\r\nX: 1\r\nX: 2\r\nplain",
    )
    .unwrap();
    assert_eq!(r.host.as_deref(), Some("a"));
    assert_eq!(r.content_type.as_deref(), Some("text/plain"));
    assert_eq!(r.content_length, Some(12));
    assert_eq!(r.user_agent, None);
    let x = r.headers.fields.iter().find(|f| f.0 == "x").unwrap();
    assert_eq!(x.1, "2");
    assert!(parse_http_request("").is_none());
    assert!(parse_http_request("GET").is_none());
}

fn request() -> CapturedRequest {
    CapturedRequest {
        id: "1".to_string(),
        timestamp: 0,
        source_ip: "192.168.1.1".to_string(),
        destination_ip: "example.com".to_string(),
        source_port: 12345,
        destination_port: 80,
        protocol: "TCP".to_string(),
        method: Some("GET".to_string()),
        url: Some("http://example.com/video.m3u8".to_string()),
        host: Some("example.com".to_string()),
        user_agent: None,
        content_type: Some("application/vnd.apple.mpegurl".to_string()),
        content_length: None,
        headers: Headers::new(),
        payload_size: 100,
    }
}

#[test]
fn test_request_filter() {
    let request = request();
    let mut filter = RequestFilter::default();
    filter.domain = Some("example.com".to_string());
    assert!(matches_filter(&request, &filter));
    filter.method = Some("POST".to_string());
    assert!(!matches_filter(&request, &filter));
}

#[test]
fn every_criterion_counts() {
    let r = request();
    let with = |f: fn(&mut RequestFilter)| {
        let mut filter = RequestFilter::default();
        f(&mut filter);
        matches_filter(&request(), &filter)
    };
    assert!(with(|f| f.url_regex = Some(r"\.m3u8$".to_string())));
    assert!(!with(|f| f.url_regex = Some(r"^\.m3u8$".to_string())));
    assert!(with(|f| f.url_regex = Some("(".to_string())));
    assert!(with(|f| f.content_type_regex = Some("mpeg".to_string())));
    assert!(!with(|f| f.content_type_regex = Some("json".to_string())));
    assert!(with(|f| f.content_type = Some("apple".to_string())));
    assert!(!with(|f| f.content_type = Some("html".to_string())));
    assert!(with(|f| f.min_size = Some(100)));
    assert!(!with(|f| f.min_size = Some(101)));
    assert!(with(|f| f.max_size = Some(100)));
    assert!(!with(|f| f.max_size = Some(99)));
    let none = RequestFilter::default();
    assert!(meets_criteria(&r, &none, None, None));
    assert!(meets_criteria(&r, &none, Some(Verdict::Invalid), Some(Verdict::Match)));
    assert!(!meets_criteria(&r, &none, Some(Verdict::NoMatch), None));
}

#[test]
fn test_analyze_signal() {
    assert_eq!(
        analyze_signal(
            "http://example.com/video.m3u8".to_string(),
            "application/vnd.apple.mpegurl".to_string()
        )
        .as_deref(),
        Some("[SIGNAL] Potential HLS found: http://example.com/video.m3u8 (Type: application/vnd.apple.mpegurl)")
    );
    assert_eq!(
        analyze_signal("http://example.com/video.mp4".to_string(), "video/mp4".to_string()),
        None
    );
    assert_eq!(
        analyze_signal("u".to_string(), "application/dash+xml".to_string()).as_deref(),
        Some("[SIGNAL] Potential stream found: u (Type: application/dash+xml)")
    );
    assert_eq!(classify("a.m3u8.mpd", ""), Signal::Hls);
    assert_eq!(classify("a.f4m", ""), Signal::Stream);
}

#[test]
fn test_simulate_capture() {
    let lines = simulate_capture();
    assert_eq!(
        lines,
        vec![
            "=== Simulating Network Request Capture ===",
            "",
            "[CAPTURED] GET /video/stream.m3u8 from 192.168.1.100:54321 to 142.250.185.78:443",
            "[SIGNAL] Potential HLS found: /video/stream.m3u8 (Type: application/vnd.apple.mpegurl)",
            "[CAPTURED] GET /index.html from 192.168.1.100:54322 to 172.217.14.206:80",
            "[CAPTURED] POST /api/data from 192.168.1.100:54323 to 151.101.1.140:443",
            "",
            "=== Testing Filter ===",
            "Requests matching domain 'example.com': 2",
            "  - GET /video/stream.m3u8",
            "  - POST /api/data",
            "",
            "=== Summary ===",
            "Total simulated requests: 3",
            "Test completed successfully!",
        ]
    );
    let some = demonstrate(&sample_requests(), "google");
    assert!(some.contains(&"Requests matching domain 'google': 1".to_string()));
}

fn ipv4_frame(protocol: u8, inner: &[u8]) -> Vec<u8> {
    let mut f = vec![0u8; 34];
    f[12] = 8;
    f[14] = 0x45;
    let total = 20 + inner.len();
    f[16] = (total / 256) as u8;
    f[17] = (total % 256) as u8;
    f[23] = protocol;
    f[26..30].copy_from_slice(&[10, 0, 0, 1]);
    f[30..34].copy_from_slice(&[10, 0, 0, 2]);
    f.extend_from_slice(inner);
    f
}

fn tcp(payload: &[u8]) -> Vec<u8> {
    let mut s = vec![0u8; 20];
    s[0] = (1234 / 256) as u8;
    s[1] = (1234 % 256) as u8;
    s[3] = 80;
    s[12] = 0x50;
    s.extend_from_slice(payload);
    s
}

#[test]
fn frames_are_read_layer_by_layer() {
    let http = b"GET /a HTTP/1.1\r\nHost: h\r\n\r\n";
    let frame = ipv4_frame(6, &tcp(http));
    let r = parse_frame(&frame, 9, "id".to_string()).unwrap();
    assert_eq!((r.id.as_str(), r.timestamp), ("id", 9));
    assert_eq!((r.source_port, r.destination_port), (1234, 80));
    assert_eq!((r.source_ip.as_str(), r.destination_ip.as_str()), ("10.0.0.1", "10.0.0.2"));
    assert_eq!(r.protocol, "TCP");
    assert_eq!(r.payload_size, http.len());
    assert_eq!((r.url.as_deref(), r.host.as_deref()), (Some("/a"), Some("h")));
    let u = parse_frame(&ipv4_frame(17, b"\x04\xd2\x00\x35....xyz"), 9, "id".to_string()).unwrap();
    assert_eq!((u.protocol.as_str(), u.payload_size), ("UDP", 3));
    assert_eq!((u.source_port, u.destination_port), (1234, 53));
    assert!(parse_frame(&ipv4_frame(1, b"xyz"), 9, "id".to_string()).is_none());
    assert!(parse_frame(&ipv4_frame(6, &tcp(b"")), 9, "id".to_string()).is_none());
    assert!(parse_frame(&[0; 13], 9, "id".to_string()).is_none());
    assert!(parse_frame(&frame[..33], 9, "id".to_string()).is_none());
    let mut other = frame.clone();
    other[12] = 9;
    assert!(parse_frame(&other, 9, "id".to_string()).is_none());
    let now = parse_packet(&frame).unwrap();
    assert_eq!(now.source_ip, "10.0.0.1");
    assert!(now.timestamp > 1_600_000_000);
    assert!(generate_id().parse::<u128>().unwrap() > 1_600_000_000_000_000_000);
}

#[test]
fn options_and_padding_are_no_payload() {
    let mut frame = ipv4_frame(6, &tcp(b"abc"));
    frame.extend_from_slice(&[0; 6]);
    let padded = parse_frame(&frame, 0, "x".to_string()).unwrap();
    assert_eq!((padded.payload_size, padded.destination_port), (3, 80));
    let mut inner = vec![7u8; 8];
    inner.extend_from_slice(&tcp(b"abcd"));
    let mut frame = ipv4_frame(6, &inner);
    frame[14] = 0x47;
    let r = parse_frame(&frame, 0, "x".to_string()).unwrap();
    assert_eq!((r.source_port, r.destination_port, r.payload_size), (1234, 80, 4));
}

#[test]
fn ipv6_frames_tell_their_addresses() {
    let mut f = vec![0u8; 54];
    f[12] = 0x86;
    f[13] = 0xdd;
    f[14] = 0x60;
    f[19] = 10;
    f[20] = 17;
    f[22] = 0xfe;
    f[23] = 0x80;
    f[37] = 1;
    f[38] = 0xfe;
    f[39] = 0x80;
    f[53] = 2;
    f.extend_from_slice(b"\x04\xd2\x00\x35....xy--");
    let r = parse_frame(&f, 0, "x".to_string()).unwrap();
    assert_eq!(r.source_ip, "fe80::1");
    assert_eq!(r.destination_ip, "fe80::2");
    assert_eq!((r.source_port, r.destination_port), (1234, 53));
    assert_eq!(r.payload_size, 2);
    assert!(parse_frame(&f[..53], 0, "x".to_string()).is_none());
}

#[test]
fn segments_carry_requests_or_bytes() {
    let ends = || Ends {
        id: "i".to_string(),
        timestamp: 1,
        source_ip: "s".to_string(),
        destination_ip: "d".to_string(),
    };
    let mut seg = vec![0u8; 24];
    seg[1] = 80;
    seg[3] = 81;
    seg[12] = 0x60;
    seg.extend_from_slice(b"GET /p HTTP/1.1\r\nUser-Agent: u\r\n");
    let r = parse_tcp_packet(ends(), &seg).unwrap();
    assert_eq!(r.url.as_deref(), Some("/p"));
    assert_eq!(r.user_agent.as_deref(), Some("u"));
    assert_eq!((r.source_port, r.destination_port), (80, 81));
    let mut raw = vec![0u8; 20];
    raw[12] = 0x50;
    raw.push(0xff);
    let p = parse_tcp_packet(ends(), &raw).unwrap();
    assert_eq!((p.method, p.payload_size), (None, 1));
    assert!(parse_tcp_packet(ends(), &raw[..20]).is_none());
    assert!(parse_tcp_packet(ends(), &raw[..19]).is_none());
    assert!(parse_udp_packet(ends(), &[0; 7]).is_none());
    assert_eq!(parse_udp_packet(ends(), &[0; 9]).unwrap().payload_size, 1);
}

#[test]
fn interfaces_are_chosen_by_address() {
    let i = |name: &str, has_address: bool| Interface { name: name.to_string(), has_address };
    let list = vec![i("lo", true), i("Loopback 1", true), i("eth0", false), i("eth1", true)];
    assert_eq!(find_default_interface(&list), Some(3));
    assert_eq!(find_default_interface(&vec![i("lo", true)]), Some(0));
    assert_eq!(find_default_interface(&vec![]), None);
    assert_eq!(find_interface(&list, "eth0"), Some(2));
    assert_eq!(find_interface(&list, "eth9"), None);
}

#[test]
fn captured_requests_are_buffered() {
    let mut interceptor = Interceptor::new(InterceptorConfig::default());
    assert!(!interceptor.is_running());
    assert!(interceptor.start());
    assert!(!interceptor.start());
    interceptor.stop();
    assert!(!interceptor.is_running());
    let lines = interceptor.record(request()).unwrap();
    assert_eq!(lines.len(), 2);
    assert_eq!(lines, captured_lines(&request()));
    let mut filter = RequestFilter::default();
    filter.domain = Some("nowhere".to_string());
    assert_eq!(interceptor.get_filtered_requests(filter.clone()).len(), 0);
    interceptor.set_filter(filter);
    assert!(interceptor.record(request()).is_none());
    assert_eq!(interceptor.count(), 1);
    interceptor.set_filter(RequestFilter::default());
    for n in 0..MAX_CAPTURED {
        let mut r = request();
        r.timestamp = n as u64;
        interceptor.record(r);
    }
    assert_eq!(interceptor.count(), MAX_CAPTURED);
    assert_eq!(interceptor.get_all_requests()[0].timestamp, 0);
    assert_eq!(interceptor.get_all_requests()[MAX_CAPTURED - 1].timestamp, 9999);
    interceptor.clear();
    assert_eq!(interceptor.count(), 0);
}

#[test]
fn reports_name_both_ends() {
    let mut r = request();
    r.method = None;
    r.url = None;
    assert_eq!(report("[X] ", &r), "[X] UNKNOWN - from 192.168.1.1:12345 to example.com:80");
    assert_eq!(
        handle_request(request()),
        "[REQUEST] GET http://example.com/video.m3u8 from 192.168.1.1:12345 to example.com:80"
    );
    assert_eq!(select(&vec![request()], &RequestFilter::default()).len(), 1);
}

#[test]
fn drivers_are_looked_for_and_offered() {
    assert_eq!(driver_paths().len(), 2);
    assert!(driver_installed(&vec![false, true]));
    assert!(!driver_installed(&vec![false, false]));
    assert!(!check_npcap_installed());
    assert!(ensure_npcap_or_error().unwrap_err().starts_with("Packet capture requires"));
    assert_eq!(driver_action(" Y\n"), DriverAction::Install);
    assert_eq!(driver_action("yes"), DriverAction::Explain);
    assert_eq!(driver_answer("y"), DriverAction::Install);
    assert!(driver_message(DriverAction::Install).contains("restart your computer"));
    assert!(driver_message(DriverAction::Explain).contains("https://nmap.org/npcap/"));
}
