//! Signs of media streams in a request.

use crate::text;
use vstd::prelude::*;

verus! {

/// What a request hints at.
#[derive(Debug, Clone, Copy, PartialEq, Eq, Structural)]
pub enum Signal {
    /// An HLS playlist.
    Hls,
    /// A stream of another kind.
    Stream,
    /// Nothing in particular.
    Nothing,
}

/// The URL or the content type is one of HLS.
pub open spec fn looks_hls(url: Seq<char>, ct: Seq<char>) -> bool {
    text::has(url, ".m3u8"@) || text::has(url, ".m3u"@) || text::has(
        ct,
        "application/vnd.apple.mpegurl"@,
    ) || text::has(ct, "application/x-mpegurl"@) || text::has(ct, "audio/mpegurl"@)
}

/// The URL or the content type is one of another stream.
pub open spec fn looks_streamed(url: Seq<char>, ct: Seq<char>) -> bool {
    text::has(url, ".mpd"@) || text::has(url, ".f4m"@) || text::has(ct, "application/dash+xml"@)
        || text::has(ct, "video/mp2t"@) || text::has(ct, "application/octet-stream"@)
}

/// What a request hints at; HLS comes first.
pub open spec fn signal_of(url: Seq<char>, ct: Seq<char>) -> Signal {
    if looks_hls(url, ct) {
        Signal::Hls
    } else if looks_streamed(url, ct) {
        Signal::Stream
    } else {
        Signal::Nothing
    }
}

/// The line that reports a signal.
pub open spec fn signal_line(url: Seq<char>, ct: Seq<char>) -> Option<Seq<char>> {
    match signal_of(url, ct) {
        Signal::Hls => Some("[SIGNAL] Potential HLS found: "@ + url + " (Type: "@ + ct + ")"@),
        Signal::Stream => Some("[SIGNAL] Potential stream found: "@ + url + " (Type: "@ + ct + ")"@),
        Signal::Nothing => None,
    }
}

fn mentions(s: &Vec<char>, word: &str) -> (res: bool)
    ensures
        res == text::has(s@, word@),
{
    text::contains(s, &text::chars_of(word))
}

/// Looks for signs of a stream in the URL and the content type of a request.
pub fn classify(url: &str, ct: &str) -> (res: Signal)
    ensures
        res == signal_of(url@, ct@),
{
    let u = text::chars_of(url);
    let c = text::chars_of(ct);
    if mentions(&u, ".m3u8") || mentions(&u, ".m3u") || mentions(
        &c,
        "application/vnd.apple.mpegurl",
    ) || mentions(&c, "application/x-mpegurl") || mentions(&c, "audio/mpegurl") {
        Signal::Hls
    } else if mentions(&u, ".mpd") || mentions(&u, ".f4m") || mentions(&c, "application/dash+xml")
        || mentions(&c, "video/mp2t") || mentions(&c, "application/octet-stream") {
        Signal::Stream
    } else {
        Signal::Nothing
    }
}

/// Looks for signs of a stream in the URL and the content type of a request, and gives the line
/// that reports what was found.
pub fn analyze_signal(url: String, ct: String) -> (res: Option<String>)
    ensures
        match res {
            Some(line) => signal_line(url@, ct@) == Some(line@),
            None => signal_line(url@, ct@) is None,
        },
{
    let head: &str = match classify(url.as_str(), ct.as_str()) {
        Signal::Hls => "[SIGNAL] Potential HLS found: ",
        Signal::Stream => "[SIGNAL] Potential stream found: ",
        Signal::Nothing => {
            return None;
        },
    };
    let mut line = String::new();
    line.append(head);
    line.append(url.as_str());
    line.append(" (Type: ");
    line.append(ct.as_str());
    line.append(")");
    proof {
        assert(line@ =~= head@ + url@ + " (Type: "@ + ct@ + ")"@);
    }
    Some(line)
}

/// A URL that names an HLS playlist is reported as one, whatever the content type.
pub proof fn law_playlist_urls_are_hls(url: Seq<char>, ct: Seq<char>)
    requires
        text::has(url, ".m3u8"@),
    ensures
        signal_of(url, ct) == Signal::Hls,
{
}

/// A request is flagged as HLS by the name of a playlist in its URL or by one of the content types of
/// a playlist, wherever in the text it stands; else as a stream by what names another stream; and is
/// not flagged otherwise. The line that reports it names the URL and the content type.
pub proof fn law_signals_go_by_names_and_types(url: Seq<char>, ct: Seq<char>)
    ensures
        ({
            let hls = text::has(url, ".m3u8"@) || text::has(url, ".m3u"@) || text::has(
                ct,
                "application/vnd.apple.mpegurl"@,
            ) || text::has(ct, "application/x-mpegurl"@) || text::has(ct, "audio/mpegurl"@);
            let stream = text::has(url, ".mpd"@) || text::has(url, ".f4m"@) || text::has(
                ct,
                "application/dash+xml"@,
            ) || text::has(ct, "video/mp2t"@) || text::has(ct, "application/octet-stream"@);
            &&& hls <==> signal_of(url, ct) == Signal::Hls
            &&& !hls && stream <==> signal_of(url, ct) == Signal::Stream
            &&& hls ==> signal_line(url, ct) == Some(
                "[SIGNAL] Potential HLS found: "@ + url + " (Type: "@ + ct + ")"@,
            )
            &&& !hls && stream ==> signal_line(url, ct) == Some(
                "[SIGNAL] Potential stream found: "@ + url + " (Type: "@ + ct + ")"@,
            )
            &&& !hls && !stream ==> signal_line(url, ct) is None
        }),
{
}

} // verus!
