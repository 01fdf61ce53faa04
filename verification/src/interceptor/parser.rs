//! From raw packets to captured requests.

use crate::clock;
use crate::interceptor::types::{CapturedRequest, Headers, RequestView};
use crate::number;
use crate::scan;
use crate::text;
use crate::types::opt_text;
use pnet::packet::Packet;
use pnet::packet::ethernet::EthernetPacket;
use pnet::packet::ipv4::Ipv4Packet;
use pnet::packet::ipv6::Ipv6Packet;
use pnet::packet::tcp::TcpPacket;
use pnet::packet::udp::UdpPacket;
use vstd::prelude::*;

verus! {

/// The head of an HTTP request.
#[derive(Debug)]
pub struct HttpRequest {
    pub method: Option<String>,
    pub url: Option<String>,
    pub host: Option<String>,
    pub user_agent: Option<String>,
    pub content_type: Option<String>,
    pub content_length: Option<u64>,
    pub headers: Headers,
}

/// The content of an `HttpRequest`.
pub struct HttpView {
    pub method: Option<Seq<char>>,
    pub url: Option<Seq<char>>,
    pub host: Option<Seq<char>>,
    pub user_agent: Option<Seq<char>>,
    pub content_type: Option<Seq<char>>,
    pub content_length: Option<u64>,
    pub headers: Map<Seq<char>, Seq<char>>,
}

impl View for HttpRequest {
    type V = HttpView;

    open spec fn view(&self) -> HttpView {
        HttpView {
            method: opt_text(self.method),
            url: opt_text(self.url),
            host: opt_text(self.host),
            user_agent: opt_text(self.user_agent),
            content_type: opt_text(self.content_type),
            content_length: self.content_length,
            headers: self.headers@,
        }
    }
}

/// A request line alone, without header fields.
pub open spec fn bare_request(method: Seq<char>, url: Seq<char>) -> HttpView {
    HttpView {
        method: Some(method),
        url: Some(url),
        host: None,
        user_agent: None,
        content_type: None,
        content_length: None,
        headers: Map::empty(),
    }
}

/// The request after a header field with that name, in lower case, was read. A field that comes
/// again replaces what came before.
pub open spec fn with_field(r: HttpView, name: Seq<char>, value: Seq<char>) -> HttpView {
    HttpView {
        method: r.method,
        url: r.url,
        host: if name == "host"@ {
            Some(value)
        } else {
            r.host
        },
        user_agent: if name == "user-agent"@ {
            Some(value)
        } else {
            r.user_agent
        },
        content_type: if name == "content-type"@ {
            Some(value)
        } else {
            r.content_type
        },
        content_length: if name == "content-length"@ {
            number::u64_of(value)
        } else {
            r.content_length
        },
        headers: r.headers.insert(name, value),
    }
}

/// The request after a line behind the request line was read. A line without a colon says nothing.
pub open spec fn with_line(r: HttpView, line: Seq<char>) -> HttpView {
    match line.index_of_first(':') {
        Some(k) => with_field(
            r,
            scan::unicode_lower(scan::trim_of(line.take(k))),
            scan::trim_of(line.skip(k + 1)),
        ),
        None => r,
    }
}

/// The request after the first `n` lines were read.
pub open spec fn with_lines(r: HttpView, lines: Seq<Seq<char>>, n: nat) -> HttpView
    decreases n,
{
    if n <= 1 {
        r
    } else {
        with_line(with_lines(r, lines, (n - 1) as nat), lines[n - 1])
    }
}

/// The request that a text holds: its first line has a method and a URL at least.
pub open spec fn http_of(s: Seq<char>) -> Option<HttpView> {
    let lines = scan::lines_of(s);
    if lines.len() == 0 || scan::words_of(lines[0]).len() < 2 {
        None
    } else {
        let words = scan::words_of(lines[0]);
        Some(with_lines(bare_request(words[0], words[1]), lines, lines.len()))
    }
}

/// Adds a header field, with its name in lower case, to a request.
pub fn apply_field(r: &mut HttpRequest, name: String, value: String)
    requires
        old(r).headers.wf(),
    ensures
        final(r).headers.wf(),
        final(r)@ == with_field(old(r)@, name@, value@),
{
    if text::eq(name.as_str(), "host") {
        r.host = Some(value.clone());
    }
    if text::eq(name.as_str(), "user-agent") {
        r.user_agent = Some(value.clone());
    }
    if text::eq(name.as_str(), "content-type") {
        r.content_type = Some(value.clone());
    }
    if text::eq(name.as_str(), "content-length") {
        r.content_length = number::parse_u64(&text::chars_of(value.as_str()));
    }
    proof {
        reveal_strlit("host");
        reveal_strlit("user-agent");
        reveal_strlit("content-type");
        reveal_strlit("content-length");
    }
    r.headers.insert(name, value);
}

/// Reads a line behind the request line into a request.
fn apply_line(r: &mut HttpRequest, line: &Vec<char>)
    requires
        old(r).headers.wf(),
    ensures
        final(r).headers.wf(),
        final(r)@ == with_line(old(r)@, line@),
{
    let n = line.len();
    match text::find_first(line, ':') {
        Some(k) => {
            let key = text::slice(line, 0, k);
            let rest = text::slice(line, k + 1, n);
            assert(key@ =~= line@.take(k as int));
            assert(rest@ =~= line@.skip(k + 1));
            let name = scan::to_lowercase(text::string_of(&scan::trim(&key)).as_str());
            let value = text::string_of(&scan::trim(&rest));
            apply_field(r, name, value);
        },
        None => {},
    }
}

/// Reads the head of an HTTP request; none where the first line has fewer than two words.
pub fn parse_http_request(http_str: &str) -> (res: Option<HttpRequest>)
    ensures
        match res {
            Some(r) => http_of(http_str@) == Some(r@) && r.headers.wf(),
            None => http_of(http_str@) is None,
        },
{
    let lines = scan::lines(&text::chars_of(http_str));
    let ghost spec_lines = scan::lines_of(http_str@);
    assert(scan::views(lines@) == spec_lines);
    if lines.len() == 0 {
        return None;
    }
    assert(scan::views(lines@)[0] == lines@[0]@);
    let words = scan::split_whitespace(&lines[0]);
    let ghost spec_words = scan::words_of(spec_lines[0]);
    assert(scan::views(words@) == spec_words);
    if words.len() < 2 {
        return None;
    }
    assert(scan::views(words@)[0] == words@[0]@);
    assert(scan::views(words@)[1] == words@[1]@);
    let mut r = HttpRequest {
        method: Some(text::string_of(&words[0])),
        url: Some(text::string_of(&words[1])),
        host: None,
        user_agent: None,
        content_type: None,
        content_length: None,
        headers: Headers::new(),
    };
    let ghost bare = bare_request(spec_words[0], spec_words[1]);
    let mut i: usize = 1;
    while i < lines.len()
        invariant
            1 <= i <= lines@.len(),
            scan::views(lines@) == spec_lines,
            r.headers.wf(),
            r@ == with_lines(bare, spec_lines, i as nat),
        decreases lines@.len() - i,
    {
        assert(scan::views(lines@)[i as int] == lines@[i as int]@);
        apply_line(&mut r, &lines[i]);
        i = i + 1;
    }
    Some(r)
}

/// Two bytes as a number, the more significant one first.
pub open spec fn be16(data: Seq<u8>, at: int) -> u16 {
    (data[at] * 256 + data[at + 1]) as u16
}

/// `EthernetPacket::new` takes a frame of at least 14 bytes; `get_ethertype` is the number in the
/// bytes 12 and 13, and `payload` is what follows them.
#[verifier::external_body]
fn ethernet_frame(data: &[u8]) -> (res: Option<(u16, Vec<u8>)>)
    ensures
        match res {
            Some((kind, payload)) => {
                &&& data@.len() >= 14
                &&& kind == be16(data@, 12)
                &&& payload@ == data@.skip(14)
            },
            None => data@.len() < 14,
        },
{
    let p = EthernetPacket::new(data)?;
    Some((p.get_ethertype().0, p.payload().to_vec()))
}

/// The bytes from `start` on, at most `len` of them.
pub open spec fn bytes_from(data: Seq<u8>, start: int, len: int) -> Seq<u8> {
    if data.len() <= start {
        Seq::empty()
    } else if start + len <= data.len() {
        data.subrange(start, start + len)
    } else {
        data.skip(start)
    }
}

/// A number, or 0 where it is below that.
pub open spec fn at_least_zero(n: int) -> int {
    if n < 0 {
        0
    } else {
        n
    }
}

/// The payload of an IPv4 packet: it follows the header, whose length the low half of the first byte
/// tells in words of four bytes, and the number in the bytes 2 and 3 is the length of both.
pub open spec fn ipv4_payload(data: Seq<u8>) -> Seq<u8> {
    let header = data[0] as int % 16 * 4;
    bytes_from(
        data,
        20 + at_least_zero(header - 20),
        at_least_zero(be16(data, 2) as int - header),
    )
}

/// `Ipv4Packet::new` takes a packet of at least 20 bytes; the protocol is byte 9, the source address
/// the bytes 12 to 15, the destination address the bytes 16 to 19. `payload` follows the header and
/// its options, as far as the total length and the bytes reach.
#[verifier::external_body]
fn ipv4_packet(data: &[u8]) -> (res: Option<(u8, [u8; 4], [u8; 4], Vec<u8>)>)
    ensures
        match res {
            Some((protocol, source, destination, payload)) => {
                &&& data@.len() >= 20
                &&& protocol == data@[9]
                &&& source@ == data@.subrange(12, 16)
                &&& destination@ == data@.subrange(16, 20)
                &&& payload@ == ipv4_payload(data@)
            },
            None => data@.len() < 20,
        },
{
    let p = Ipv4Packet::new(data)?;
    let protocol = p.get_next_level_protocol().0;
    let (source, destination) = (p.get_source().octets(), p.get_destination().octets());
    Some((protocol, source, destination, p.payload().to_vec()))
}

/// The text of an IPv6 address of 16 bytes.
pub uninterp spec fn ipv6_text(octets: Seq<u8>) -> Seq<char>;

/// The payload of an IPv6 packet: it follows the header, and the number in the bytes 4 and 5 is its
/// length.
pub open spec fn ipv6_payload(data: Seq<u8>) -> Seq<u8> {
    bytes_from(data, 40, be16(data, 4) as int)
}

/// `Ipv6Packet::new` takes a packet of at least 40 bytes; the next header is byte 6, the source
/// address the bytes 8 to 23, the destination address the bytes 24 to 39. The addresses are handed
/// on as text, which depends on their bytes alone. `payload` follows the header, as far as its length
/// and the bytes reach.
#[verifier::external_body]
fn ipv6_packet(data: &[u8]) -> (res: Option<(u8, String, String, Vec<u8>)>)
    ensures
        match res {
            Some((protocol, source, destination, payload)) => {
                &&& data@.len() >= 40
                &&& protocol == data@[6]
                &&& source@ == ipv6_text(data@.subrange(8, 24))
                &&& destination@ == ipv6_text(data@.subrange(24, 40))
                &&& payload@ == ipv6_payload(data@)
            },
            None => data@.len() < 40,
        },
{
    let p = Ipv6Packet::new(data)?;
    let next_header = p.get_next_header().0;
    let (source, destination) = (p.get_source().to_string(), p.get_destination().to_string());
    Some((next_header, source, destination, p.payload().to_vec()))
}

/// Where the payload of a TCP segment starts: behind the options, if the data offset tells of any.
pub open spec fn tcp_payload_start(data: Seq<u8>) -> int {
    let offset = data[12] as int / 16;
    if offset > 5 {
        offset * 4
    } else {
        20
    }
}

/// The payload of a TCP segment.
pub open spec fn tcp_payload(data: Seq<u8>) -> Seq<u8> {
    if data.len() <= tcp_payload_start(data) {
        Seq::empty()
    } else {
        data.skip(tcp_payload_start(data))
    }
}

/// `TcpPacket::new` takes a segment of at least 20 bytes; the ports are the first two numbers, and
/// the payload follows the header and its options.
#[verifier::external_body]
fn tcp_segment(data: &[u8]) -> (res: Option<(u16, u16, Vec<u8>)>)
    ensures
        match res {
            Some((source, destination, payload)) => {
                &&& data@.len() >= 20
                &&& source == be16(data@, 0)
                &&& destination == be16(data@, 2)
                &&& payload@ == tcp_payload(data@)
            },
            None => data@.len() < 20,
        },
{
    let p = TcpPacket::new(data)?;
    Some((p.get_source(), p.get_destination(), p.payload().to_vec()))
}

/// `UdpPacket::new` takes a datagram of at least 8 bytes; the ports are the first two numbers, and
/// the payload follows the header.
#[verifier::external_body]
fn udp_datagram(data: &[u8]) -> (res: Option<(u16, u16, Vec<u8>)>)
    ensures
        match res {
            Some((source, destination, payload)) => {
                &&& data@.len() >= 8
                &&& source == be16(data@, 0)
                &&& destination == be16(data@, 2)
                &&& payload@ == data@.skip(8)
            },
            None => data@.len() < 8,
        },
{
    let p = UdpPacket::new(data)?;
    Some((p.get_source(), p.get_destination(), p.payload().to_vec()))
}

/// `String::from_utf8` gives the text that the bytes encode in UTF-8, and nothing where they do not.
#[verifier::external_body]
fn utf8_text(bytes: Vec<u8>) -> (res: Option<String>)
    ensures
        match res {
            Some(s) => vstd::utf8::valid_utf8(bytes@) && s@ == vstd::utf8::decode_utf8(bytes@),
            None => !vstd::utf8::valid_utf8(bytes@),
        },
{
    String::from_utf8(bytes).ok()
}

/// A name for a request: the present time in nanoseconds, in decimal. A clock that stands before 1970
/// counts as 1970.
pub fn generate_id() -> (res: String)
    ensures
        exists|n: nat| res@ == #[trigger] number::decimal(n),
{
    let n: u128 = match clock::nanos_since_epoch() {
        Some(n) => n,
        None => 0,
    };
    text::string_of(&number::to_decimal(n))
}

/// Four bytes as the text of an IPv4 address.
pub open spec fn dotted(octets: Seq<u8>) -> Seq<char> {
    number::decimal(octets[0] as nat) + seq!['.'] + number::decimal(octets[1] as nat) + seq!['.']
        + number::decimal(octets[2] as nat) + seq!['.'] + number::decimal(octets[3] as nat)
}

/// Four bytes as the text of an IPv4 address.
fn dotted_text(octets: &[u8; 4]) -> (res: String)
    ensures
        res@ == dotted(octets@),
{
    let mut out = number::to_decimal(octets[0] as u128);
    out.push('.');
    out.append(&mut number::to_decimal(octets[1] as u128));
    out.push('.');
    out.append(&mut number::to_decimal(octets[2] as u128));
    out.push('.');
    out.append(&mut number::to_decimal(octets[3] as u128));
    proof {
        assert(out@ =~= dotted(octets@));
    }
    text::string_of(&out)
}

/// The two ends of a captured packet, and when it was captured.
pub struct Ends {
    pub id: String,
    pub timestamp: u64,
    pub source_ip: String,
    pub destination_ip: String,
}

/// The content of an `Ends`.
pub struct EndsView {
    pub id: Seq<char>,
    pub timestamp: u64,
    pub source_ip: Seq<char>,
    pub destination_ip: Seq<char>,
}

impl View for Ends {
    type V = EndsView;

    open spec fn view(&self) -> EndsView {
        EndsView {
            id: self.id@,
            timestamp: self.timestamp,
            source_ip: self.source_ip@,
            destination_ip: self.destination_ip@,
        }
    }
}

/// A captured packet of which no more is known than its ends and the length of its payload.
pub open spec fn plain_packet(
    e: EndsView,
    source_port: u16,
    destination_port: u16,
    protocol: Seq<char>,
    payload_size: usize,
) -> RequestView {
    RequestView {
        id: e.id,
        timestamp: e.timestamp,
        source_ip: e.source_ip,
        destination_ip: e.destination_ip,
        source_port,
        destination_port,
        protocol,
        method: None,
        url: None,
        host: None,
        user_agent: None,
        content_type: None,
        content_length: None,
        headers: Map::empty(),
        payload_size,
    }
}

/// What a TCP segment is captured as: nothing where its payload is empty, an HTTP request where the
/// payload is one, and a plain packet otherwise.
pub open spec fn tcp_request(e: EndsView, data: Seq<u8>) -> Option<RequestView> {
    let payload = tcp_payload(data);
    let plain = plain_packet(e, be16(data, 0), be16(data, 2), "TCP"@, payload.len() as usize);
    if data.len() < 20 || payload.len() == 0 {
        None
    } else if !vstd::utf8::valid_utf8(payload) {
        Some(plain)
    } else {
        match http_of(vstd::utf8::decode_utf8(payload)) {
            Some(r) => Some(
                RequestView {
                    method: r.method,
                    url: r.url,
                    host: r.host,
                    user_agent: r.user_agent,
                    content_type: r.content_type,
                    content_length: r.content_length,
                    headers: r.headers,
                    ..plain
                },
            ),
            None => Some(plain),
        }
    }
}

/// What a UDP datagram is captured as.
pub open spec fn udp_request(e: EndsView, data: Seq<u8>) -> Option<RequestView> {
    if data.len() < 8 {
        None
    } else {
        Some(
            plain_packet(
                e,
                be16(data, 0),
                be16(data, 2),
                "UDP"@,
                (data.len() - 8) as usize,
            ),
        )
    }
}

/// What an optional capture holds.
pub open spec fn captured(r: Option<CapturedRequest>) -> Option<RequestView> {
    match r {
        Some(c) => Some(c@),
        None => None,
    }
}

fn plain_request(
    e: Ends,
    source_port: u16,
    destination_port: u16,
    protocol: &str,
    payload_size: usize,
) -> (res: CapturedRequest)
    ensures
        res@ == plain_packet(e@, source_port, destination_port, protocol@, payload_size),
{
    CapturedRequest {
        id: e.id,
        timestamp: e.timestamp,
        source_ip: e.source_ip,
        destination_ip: e.destination_ip,
        source_port,
        destination_port,
        protocol: protocol.to_owned(),
        method: None,
        url: None,
        host: None,
        user_agent: None,
        content_type: None,
        content_length: None,
        headers: Headers::new(),
        payload_size,
    }
}

/// Captures a TCP segment.
pub fn parse_tcp_packet(e: Ends, data: &[u8]) -> (res: Option<CapturedRequest>)
    ensures
        captured(res) == tcp_request(e@, data@),
{
    let (source_port, destination_port, payload) = match tcp_segment(data) {
        Some(segment) => segment,
        None => {
            return None;
        },
    };
    let payload_size: usize = payload.len();
    if payload_size == 0 {
        return None;
    }
    if let Some(http_str) = utf8_text(payload) {
        if let Some(request) = parse_http_request(http_str.as_str()) {
            return Some(
                CapturedRequest {
                    id: e.id,
                    timestamp: e.timestamp,
                    source_ip: e.source_ip,
                    destination_ip: e.destination_ip,
                    source_port,
                    destination_port,
                    protocol: "TCP".to_owned(),
                    method: request.method,
                    url: request.url,
                    host: request.host,
                    user_agent: request.user_agent,
                    content_type: request.content_type,
                    content_length: request.content_length,
                    headers: request.headers,
                    payload_size,
                },
            );
        }
    }
    Some(plain_request(e, source_port, destination_port, "TCP", payload_size))
}

/// Captures a UDP datagram.
pub fn parse_udp_packet(e: Ends, data: &[u8]) -> (res: Option<CapturedRequest>)
    ensures
        captured(res) == udp_request(e@, data@),
{
    match udp_datagram(data) {
        Some((source_port, destination_port, payload)) => Some(
            plain_request(e, source_port, destination_port, "UDP", payload.len()),
        ),
        None => None,
    }
}

/// The number of the IPv4 protocol in a frame.
pub const ETHERTYPE_IPV4: u16 = 0x0800;

/// The number of the IPv6 protocol in a frame.
pub const ETHERTYPE_IPV6: u16 = 0x86dd;

/// The number of TCP in a packet.
pub const PROTOCOL_TCP: u8 = 6;

/// The number of UDP in a packet.
pub const PROTOCOL_UDP: u8 = 17;

/// What a packet is captured as: TCP and UDP are, nothing else.
pub open spec fn packet_request(protocol: u8, e: EndsView, data: Seq<u8>) -> Option<RequestView> {
    if protocol == PROTOCOL_TCP {
        tcp_request(e, data)
    } else if protocol == PROTOCOL_UDP {
        udp_request(e, data)
    } else {
        None
    }
}

/// What an IPv4 packet is captured as.
pub open spec fn ipv4_request(
    data: Seq<u8>,
    timestamp: u64,
    id: Seq<char>,
) -> Option<RequestView> {
    if data.len() < 20 {
        None
    } else {
        packet_request(
            data[9],
            EndsView {
                id,
                timestamp,
                source_ip: dotted(data.subrange(12, 16)),
                destination_ip: dotted(data.subrange(16, 20)),
            },
            ipv4_payload(data),
        )
    }
}

/// What an IPv6 packet is captured as.
pub open spec fn ipv6_request(
    data: Seq<u8>,
    timestamp: u64,
    id: Seq<char>,
) -> Option<RequestView> {
    if data.len() < 40 {
        None
    } else {
        packet_request(
            data[6],
            EndsView {
                id,
                timestamp,
                source_ip: ipv6_text(data.subrange(8, 24)),
                destination_ip: ipv6_text(data.subrange(24, 40)),
            },
            ipv6_payload(data),
        )
    }
}

/// What a frame is captured as: the IP packet is its payload.
pub open spec fn frame_request(
    data: Seq<u8>,
    timestamp: u64,
    id: Seq<char>,
) -> Option<RequestView> {
    if data.len() < 14 {
        None
    } else if be16(data, 12) == ETHERTYPE_IPV4 {
        ipv4_request(data.skip(14), timestamp, id)
    } else if be16(data, 12) == ETHERTYPE_IPV6 {
        ipv6_request(data.skip(14), timestamp, id)
    } else {
        None
    }
}

fn parse_ip_packet(protocol: u8, e: Ends, data: &[u8]) -> (res: Option<CapturedRequest>)
    ensures
        captured(res) == packet_request(protocol, e@, data@),
{
    if protocol == PROTOCOL_TCP {
        parse_tcp_packet(e, data)
    } else if protocol == PROTOCOL_UDP {
        parse_udp_packet(e, data)
    } else {
        None
    }
}

/// Captures an IPv4 packet under a name, at a time in seconds since 1970.
pub fn parse_ipv4_packet(data: &[u8], timestamp: u64, id: String) -> (res: Option<CapturedRequest>)
    ensures
        captured(res) == ipv4_request(data@, timestamp, id@),
{
    match ipv4_packet(data) {
        Some((protocol, source, destination, payload)) => {
            let e = Ends {
                id,
                timestamp,
                source_ip: dotted_text(&source),
                destination_ip: dotted_text(&destination),
            };
            parse_ip_packet(protocol, e, payload.as_slice())
        },
        None => None,
    }
}

/// Captures an IPv6 packet under a name, at a time in seconds since 1970.
pub fn parse_ipv6_packet(data: &[u8], timestamp: u64, id: String) -> (res: Option<CapturedRequest>)
    ensures
        captured(res) == ipv6_request(data@, timestamp, id@),
{
    match ipv6_packet(data) {
        Some((protocol, source_ip, destination_ip, payload)) => {
            let e = Ends { id, timestamp, source_ip, destination_ip };
            parse_ip_packet(protocol, e, payload.as_slice())
        },
        None => None,
    }
}

/// Captures a frame under a name, at a time in seconds since 1970.
pub fn parse_frame(data: &[u8], timestamp: u64, id: String) -> (res: Option<CapturedRequest>)
    ensures
        captured(res) == frame_request(data@, timestamp, id@),
{
    match ethernet_frame(data) {
        Some((kind, payload)) => if kind == ETHERTYPE_IPV4 {
            parse_ipv4_packet(payload.as_slice(), timestamp, id)
        } else if kind == ETHERTYPE_IPV6 {
            parse_ipv6_packet(payload.as_slice(), timestamp, id)
        } else {
            None
        },
        None => None,
    }
}

/// Captures a frame now.
pub fn parse_packet(data: &[u8]) -> (res: Option<CapturedRequest>)
    ensures
        exists|timestamp: u64, n: nat|
            captured(res) == #[trigger] frame_request(data@, timestamp, number::decimal(n)),
{
    let timestamp: u64 = match clock::seconds_since_epoch() {
        Some(n) => n,
        None => 0,
    };
    let id = generate_id();
    let ghost n = choose|n: nat| id@ == #[trigger] number::decimal(n);
    let res = parse_frame(data, timestamp, id);
    assert(captured(res) == frame_request(data@, timestamp, number::decimal(n)));
    res
}

/// A TCP segment over IPv4 without options, in an Ethernet frame that carries nothing else, is
/// captured with the addresses of its IP header, the ports of its TCP header and the length of what it
/// carries.
pub proof fn law_frames_are_read_layer_by_layer(
    ethernet: Seq<u8>,
    ip: Seq<u8>,
    segment: Seq<u8>,
    timestamp: u64,
    id: Seq<char>,
)
    requires
        ethernet.len() == 14,
        be16(ethernet, 12) == ETHERTYPE_IPV4,
        ip.len() == 20,
        ip[0] as int % 16 == 5,
        ip[9] == PROTOCOL_TCP,
        be16(ip, 2) == 20 + segment.len(),
        segment.len() >= 20,
        tcp_payload(segment).len() > 0,
    ensures
        frame_request(ethernet + ip + segment, timestamp, id) matches Some(r) && {
            &&& r.source_ip == dotted(ip.subrange(12, 16))
            &&& r.destination_ip == dotted(ip.subrange(16, 20))
            &&& r.source_port == be16(segment, 0)
            &&& r.destination_port == be16(segment, 2)
            &&& r.protocol == "TCP"@
            &&& r.payload_size == tcp_payload(segment).len()
        },
{
    let data = ethernet + ip + segment;
    let packet = ip + segment;
    assert(data.skip(14) =~= packet);
    assert(packet.subrange(12, 16) =~= ip.subrange(12, 16));
    assert(packet.subrange(16, 20) =~= ip.subrange(16, 20));
    assert(ipv4_payload(packet) =~= segment);
}

/// Only TCP and UDP over IP are captured, and of TCP only segments that carry something.
pub proof fn law_captures_are_tcp_or_udp(data: Seq<u8>, timestamp: u64, id: Seq<char>)
    requires
        data.len() <= usize::MAX,
    ensures
        frame_request(data, timestamp, id) matches Some(r) ==> {
            &&& r.protocol == "TCP"@ || r.protocol == "UDP"@
            &&& r.protocol == "TCP"@ ==> r.payload_size > 0
            &&& r.id == id
            &&& r.timestamp == timestamp
        },
{
    reveal_strlit("TCP");
    reveal_strlit("UDP");
    assert("TCP"@[0] == 'T');
    assert("UDP"@[0] == 'U');
}

/// A header line is cut at its first colon, whatever colons its value holds: the field has the name
/// before it, trimmed and in lower case, and the value behind it, trimmed. A line without a colon
/// changes nothing.
pub proof fn law_header_lines_are_cut_at_their_first_colon(
    r: HttpView,
    name: Seq<char>,
    value: Seq<char>,
)
    requires
        !name.contains(':'),
    ensures
        ({
            let key = scan::unicode_lower(scan::trim_of(name));
            let v = scan::trim_of(value);
            let after = with_line(r, name + seq![':'] + value);
            &&& !scan::trim_of(name).contains(':')
            &&& after.headers == r.headers.insert(key, v)
            &&& after.host == if key == "host"@ {
                Some(v)
            } else {
                r.host
            }
            &&& after.user_agent == if key == "user-agent"@ {
                Some(v)
            } else {
                r.user_agent
            }
            &&& after.content_type == if key == "content-type"@ {
                Some(v)
            } else {
                r.content_type
            }
            &&& after.content_length == if key == "content-length"@ {
                number::u64_of(v)
            } else {
                r.content_length
            }
            &&& after.method == r.method
            &&& after.url == r.url
        }),
        with_line(r, name) == r,
{
    let line = name + seq![':'] + value;
    assert(line[name.len() as int] == ':');
    line.index_of_first_ensures(':');
    name.index_of_first_ensures(':');
    let k = line.index_of_first(':')->0;
    if k < name.len() {
        assert(name[k] == ':');
    }
    assert(line.take(name.len() as int) =~= name);
    assert(line.skip(name.len() as int + 1) =~= value);
    let at = scan::law_trimmed_text_stands_in_the_text(name);
    let t = scan::trim_of(name);
    if t.contains(':') {
        let i = choose|i: int| 0 <= i < t.len() && t[i] == ':';
        assert(name[at + i] == ':');
    }
}

/// A request begins with its method and its URL, between blanks; whatever follows them on the line
/// does not count. A text whose first line has one word only is no request.
pub proof fn law_requests_begin_with_method_and_url(
    method: Seq<char>,
    url: Seq<char>,
    tail: Seq<char>,
    rest: Seq<char>,
)
    requires
        method.len() > 0,
        url.len() > 0,
        forall|i: int| 0 <= i < method.len() ==> !scan::is_space(#[trigger] method[i]),
        forall|i: int| 0 <= i < url.len() ==> !scan::is_space(#[trigger] url[i]),
        !tail.contains('\n'),
        tail.len() == 0 || tail.last() != '\r',
    ensures
        http_of(method + seq![' '] + url + seq![' '] + tail + seq!['\r', '\n']) == Some(
            HttpView {
                method: Some(method),
                url: Some(url),
                host: None,
                user_agent: None,
                content_type: None,
                content_length: None,
                headers: Map::empty(),
            },
        ),
        http_of(method + seq!['\r', '\n'] + rest) is None,
        http_of(method) is None,
        http_of(Seq::<char>::empty()) is None,
{
    let line = method + seq![' '] + url + seq![' '] + tail;
    assert(!method.contains('\n')) by {
        if method.contains('\n') {
            let i = choose|i: int| 0 <= i < method.len() && method[i] == '\n';
            assert(!scan::is_space(method[i]));
        }
    }
    assert(method.last() != '\r') by {
        assert(!scan::is_space(method[method.len() - 1]));
    }
    assert(!line.contains('\n')) by {
        assert forall|i: int| 0 <= i < line.len() implies line[i] != '\n' by {
            if i < method.len() {
                assert(!scan::is_space(method[i]));
            } else if method.len() < i < method.len() + 1 + url.len() {
                assert(!scan::is_space(url[i - method.len() - 1]));
            } else if i >= method.len() + url.len() + 2 {
                assert(tail.contains(tail[i - method.len() - url.len() - 2]));
            }
        }
    }
    let empty = Seq::<char>::empty();
    assert(line + seq!['\r', '\n'] =~= line + seq!['\r', '\n'] + empty);
    scan::law_lines_end_at_line_feeds(line, empty);
    scan::law_lines_end_at_line_feeds(method, rest);
    assert(seq![line] + scan::lines_of(empty) =~= seq![line]);
    assert(line =~= method + seq![' '] + (url + seq![' '] + tail));
    scan::law_words_end_at_white_space(method, ' ', url + seq![' '] + tail);
    scan::law_words_end_at_white_space(url, ' ', tail);
    let words = scan::words_of(line);
    assert(words[0] == method);
    assert(words[1] == url);
    assert(scan::lines_of(method + seq!['\r', '\n'] + rest)[0] == method);
    assert(scan::lines_of(method)[0] == method);
}

proof fn lemma_lines_so_far(r: HttpView, lines: Seq<Seq<char>>, line: Seq<char>, n: nat)
    requires
        n <= lines.len(),
    ensures
        with_lines(r, lines.push(line), n) == with_lines(r, lines, n),
    decreases n,
{
    if n > 1 {
        lemma_lines_so_far(r, lines, line, (n - 1) as nat);
    }
}

/// One more line behind a request adds what the line says, and keeps all that was read before.
pub proof fn law_each_line_adds_its_field(s: Seq<char>, line: Seq<char>)
    requires
        s.len() > 0,
        s.last() == '\n',
        http_of(s) is Some,
        !line.contains('\n'),
        line.len() == 0 || line.last() != '\r',
    ensures
        http_of(s + line + seq!['\r', '\n']) == Some(with_line(http_of(s)->0, line)),
{
    let more = line + seq!['\r', '\n'];
    let empty = Seq::<char>::empty();
    assert(s + line + seq!['\r', '\n'] =~= s + more);
    scan::law_lines_go_on_behind_a_line_feed(s, more);
    assert(more =~= line + seq!['\r', '\n'] + empty);
    scan::law_lines_end_at_line_feeds(line, empty);
    let lines = scan::lines_of(s);
    let words = scan::words_of(lines[0]);
    assert(lines + (seq![line] + scan::lines_of(empty)) =~= lines.push(line));
    lemma_lines_so_far(bare_request(words[0], words[1]), lines, line, lines.len());
}

/// A number of two bytes has the more significant one first.
pub proof fn law_network_numbers_are_big_endian(data: Seq<u8>, at: int)
    ensures
        be16(data, at) as int == data[at] as int * 256 + data[at + 1] as int,
{
}

/// A TCP segment that carries a request is captured with all that the request says, and any other one
/// that carries something with its ports and its length alone. The payload follows the header, as
/// long as the data offset tells.
pub proof fn law_segments_carry_their_request(e: EndsView, head: Seq<u8>, payload: Seq<u8>)
    requires
        20 <= head.len(),
        head.len() == 4 * (head[12] as int / 16),
        0 < payload.len() <= usize::MAX,
    ensures
        ({
            let c = tcp_request(e, head + payload);
            let read = if vstd::utf8::valid_utf8(payload) {
                http_of(vstd::utf8::decode_utf8(payload))
            } else {
                None
            };
            &&& c matches Some(p) && {
                &&& p.source_ip == e.source_ip
                &&& p.destination_ip == e.destination_ip
                &&& p.source_port as int == head[0] as int * 256 + head[1] as int
                &&& p.destination_port as int == head[2] as int * 256 + head[3] as int
                &&& p.protocol == "TCP"@
                &&& p.payload_size == payload.len()
                &&& match read {
                    Some(r) => p.method == r.method && p.url == r.url && p.host == r.host
                        && p.user_agent == r.user_agent && p.content_type == r.content_type
                        && p.content_length == r.content_length && p.headers == r.headers,
                    None => p.method is None && p.url is None && p.host is None && p.headers
                        == Map::<Seq<char>, Seq<char>>::empty(),
                }
            }
            &&& tcp_request(e, head) is None
        }),
{
    let data = head + payload;
    assert(data.skip(head.len() as int) =~= payload);
}

/// A UDP datagram is captured with its ports and the length of what it carries.
pub proof fn law_datagrams_are_captured(e: EndsView, head: Seq<u8>, payload: Seq<u8>)
    requires
        head.len() == 8,
        payload.len() <= usize::MAX,
    ensures
        udp_request(e, head + payload) matches Some(p) && {
            &&& p.source_port as int == head[0] as int * 256 + head[1] as int
            &&& p.destination_port as int == head[2] as int * 256 + head[3] as int
            &&& p.protocol == "UDP"@
            &&& p.payload_size == payload.len()
            &&& p.source_ip == e.source_ip
            &&& p.destination_ip == e.destination_ip
            &&& p.method is None && p.url is None
        },
{
}

/// An IPv6 packet in a frame is captured with its two addresses, in their order, as the protocol that
/// its header names; a frame of any other kind, and any other protocol, is not captured.
pub proof fn law_ipv6_frames_are_read_layer_by_layer(
    ethernet: Seq<u8>,
    ip: Seq<u8>,
    carried: Seq<u8>,
    timestamp: u64,
    id: Seq<char>,
)
    requires
        ethernet.len() == 14,
        ip.len() == 40,
        carried.len() == ip[4] as int * 256 + ip[5] as int,
    ensures
        ({
            let e = EndsView {
                id,
                timestamp,
                source_ip: ipv6_text(ip.subrange(8, 24)),
                destination_ip: ipv6_text(ip.subrange(24, 40)),
            };
            let r = frame_request(ethernet + ip + carried, timestamp, id);
            let ipv6 = ethernet[12] == 0x86 && ethernet[13] == 0xdd;
            let ipv4 = ethernet[12] == 0x08 && ethernet[13] == 0x00;
            &&& ipv6 && ip[6] == 6 ==> r == tcp_request(e, carried)
            &&& ipv6 && ip[6] == 17 ==> r == udp_request(e, carried)
            &&& ipv6 && ip[6] != 6 && ip[6] != 17 ==> r is None
            &&& !ipv6 && !ipv4 ==> r is None
        }),
{
    let data = ethernet + ip + carried;
    let packet = ip + carried;
    assert(data.skip(14) =~= packet);
    assert(packet.subrange(8, 24) =~= ip.subrange(8, 24));
    assert(packet.subrange(24, 40) =~= ip.subrange(24, 40));
    assert(ipv6_payload(packet) =~= carried);
    assert(be16(data, 12) as int == ethernet[12] as int * 256 + ethernet[13] as int);
}

/// What an IP packet carries stands behind its header and the options of the header, and ends where its
/// length says, whatever follows.
pub proof fn law_options_and_padding_are_left_out(
    header: Seq<u8>,
    carried: Seq<u8>,
    padding: Seq<u8>,
    words: int,
)
    requires
        5 <= words <= 15,
        header.len() == 4 * words,
        header[0] as int % 16 == words,
        be16(header, 2) == 4 * words + carried.len(),
    ensures
        ipv4_payload(header + carried + padding) == carried,
{
    let data = header + carried + padding;
    assert(data[0] == header[0] && data[2] == header[2] && data[3] == header[3]);
    assert(ipv4_payload(data) =~= carried);
}

} // verus!
