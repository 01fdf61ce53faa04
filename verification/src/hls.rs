//! HTTP live streams: playlists, the choice of a variant, and the order of segments.

use crate::download_registry::entries::RegistryError;
use crate::download_registry::registry::{Registry, added, id_text};
use crate::number;
use crate::text;
use crate::types::{hls_entry, opt_text, texts};
use vstd::prelude::*;

verus! {

/// A variant of a stream.
#[derive(Debug)]
pub struct Variant {
    /// Where its playlist is.
    pub uri: String,
    /// How many bits per second it takes.
    pub bandwidth: u64,
    /// Its width and height.
    pub resolution: Option<(u64, u64)>,
}

/// A playlist.
#[derive(Debug)]
pub enum Playlist {
    /// The variants of a stream.
    Master(Vec<Variant>),
    /// The segments of a stream, where each of them is.
    Media(Vec<String>),
}

/// The content of a `Variant`.
pub struct VariantView {
    pub uri: Seq<char>,
    pub bandwidth: u64,
    pub resolution: Option<(u64, u64)>,
}

/// The content of a `Playlist`.
pub enum PlaylistView {
    Master(Seq<VariantView>),
    Media(Seq<Seq<char>>),
}

impl View for Variant {
    type V = VariantView;

    open spec fn view(&self) -> VariantView {
        VariantView { uri: self.uri@, bandwidth: self.bandwidth, resolution: self.resolution }
    }
}

/// What some variants hold.
pub open spec fn variant_views(v: Seq<Variant>) -> Seq<VariantView> {
    v.map_values(|x: Variant| x@)
}

impl View for Playlist {
    type V = PlaylistView;

    open spec fn view(&self) -> PlaylistView {
        match self {
            Playlist::Master(v) => PlaylistView::Master(variant_views(v@)),
            Playlist::Media(v) => PlaylistView::Media(texts(v@)),
        }
    }
}

/// Why a stream cannot be downloaded.
#[derive(Debug)]
pub enum HlsError {
    /// The playlist cannot be read, for this reason.
    BadPlaylist(String),
    /// The playlist of the stream has no variants.
    NoVariants,
    /// The bandwidths of the variants cannot be added up.
    BandwidthOverflow,
    /// A variant led to another list of variants.
    ExpectedMedia,
    /// The playlist has no segments.
    NoSegments,
}

/// The playlist that a text holds, or the reason why it holds none.
pub uninterp spec fn m3u8_playlist(body: Seq<char>) -> Result<PlaylistView, Seq<char>>;

/// `m3u8_rs::parse_playlist_res` reads a playlist; what it reads, and how it describes an error,
/// depends on the text alone. Of a variant the URI, the bandwidth and the resolution are handed on,
/// of a segment the URI.
#[verifier::external_body]
fn parse_playlist(body: &str) -> (res: Result<Playlist, String>)
    ensures
        match res {
            Ok(p) => m3u8_playlist(body@) == Ok::<PlaylistView, Seq<char>>(p@),
            Err(e) => m3u8_playlist(body@) == Err::<PlaylistView, Seq<char>>(e@),
        },
{
    match m3u8_rs::parse_playlist_res(body.as_bytes()) {
        Ok(m3u8_rs::Playlist::MasterPlaylist(m)) => Ok(Playlist::Master(
            m.variants.into_iter().map(|v| Variant {
                uri: v.uri,
                bandwidth: v.bandwidth,
                resolution: v.resolution.map(|r| (r.width, r.height)),
            }).collect(),
        )),
        Ok(m3u8_rs::Playlist::MediaPlaylist(m)) => Ok(Playlist::Media(
            m.segments.into_iter().map(|s| s.uri).collect(),
        )),
        Err(e) => Err(format!("{e:?}")),
    }
}

/// The text without the given character at its end, however often.
pub open spec fn trim_end_char(s: Seq<char>, c: char) -> Seq<char>
    decreases s.len(),
{
    if s.len() > 0 && s.last() == c {
        trim_end_char(s.drop_last(), c)
    } else {
        s
    }
}

/// The text without the given character at its start, however often.
pub open spec fn trim_start_char(s: Seq<char>, c: char) -> Seq<char>
    decreases s.len(),
{
    if s.len() > 0 && s[0] == c {
        trim_start_char(s.skip(1), c)
    } else {
        s
    }
}

fn without_end(v: &Vec<char>, c: char) -> (res: Vec<char>)
    ensures
        res@ == trim_end_char(v@, c),
{
    let mut n: usize = v.len();
    assert(v@.take(n as int) =~= v@);
    while n > 0 && v[n - 1] == c
        invariant
            n <= v@.len(),
            trim_end_char(v@.take(n as int), c) == trim_end_char(v@, c),
        decreases n,
    {
        assert(v@.take(n as int).drop_last() =~= v@.take(n - 1));
        n = n - 1;
    }
    let out = text::slice(v, 0, n);
    assert(out@ =~= v@.take(n as int));
    out
}

fn without_start(v: &Vec<char>, c: char) -> (res: Vec<char>)
    ensures
        res@ == trim_start_char(v@, c),
{
    let mut n: usize = 0;
    assert(v@.skip(0) =~= v@);
    while n < v.len() && v[n] == c
        invariant
            n <= v@.len(),
            trim_start_char(v@.skip(n as int), c) == trim_start_char(v@, c),
        decreases v@.len() - n,
    {
        assert(v@.skip(n as int).skip(1) =~= v@.skip(n + 1));
        n = n + 1;
    }
    let out = text::slice(v, n, v.len());
    assert(out@ =~= v@.skip(n as int));
    out
}

/// The directory of a URL: what stands before the last slash that does not end it; the URL itself
/// where there is none.
pub open spec fn base_of(url: Seq<char>) -> Seq<char> {
    let t = trim_end_char(url, '/');
    match t.index_of_last('/') {
        Some(k) => t.take(k),
        None => url,
    }
}

/// The URL that a playlist at `base` means by `uri`: an absolute one as it is, another one beside the
/// playlist.
pub open spec fn resolved(base: Seq<char>, uri: Seq<char>) -> Seq<char> {
    if text::begins(uri, "http"@) {
        uri
    } else {
        base_of(base) + "/"@ + trim_start_char(uri, '/')
    }
}

/// The directory of a URL.
pub fn base_url(url: &str) -> (res: String)
    ensures
        res@ == base_of(url@),
{
    let whole = text::chars_of(url);
    let t = without_end(&whole, '/');
    match text::find_last(&t, '/') {
        Some(k) => {
            let base = text::slice(&t, 0, k);
            assert(base@ =~= t@.take(k as int));
            text::string_of(&base)
        },
        None => text::string_of(&whole),
    }
}

/// The URL that a playlist at `base` means by `uri`.
pub fn resolve_url(base: &str, uri: &str) -> (res: String)
    ensures
        res@ == resolved(base@, uri@),
{
    let u = text::chars_of(uri);
    if text::stands_at(&u, &text::chars_of("http"), 0) {
        return text::string_of(&u);
    }
    let mut out = base_url(base);
    out.append("/");
    out.append(text::string_of(&without_start(&u, '/')).as_str());
    out
}

/// The URLs that a playlist means by its segments.
pub open spec fn resolved_all(base: Seq<char>, uris: Seq<Seq<char>>) -> Seq<Seq<char>> {
    uris.map_values(|u: Seq<char>| resolved(base, u))
}

/// The URLs that a playlist means by its segments.
pub fn resolve_all(base: &str, uris: &Vec<String>) -> (res: Vec<String>)
    ensures
        texts(res@) == resolved_all(base@, texts(uris@)),
{
    let mut out: Vec<String> = Vec::new();
    let mut i: usize = 0;
    while i < uris.len()
        invariant
            i <= uris@.len(),
            texts(out@) == resolved_all(base@, texts(uris@.take(i as int))),
        decreases uris@.len() - i,
    {
        let ghost before = out@;
        out.push(resolve_url(base, uris[i].as_str()));
        proof {
            let u = resolved(base@, uris@[i as int]@);
            assert(texts(out@) =~= texts(before).push(u));
            assert(resolved_all(base@, texts(uris@.take(i + 1))) =~= resolved_all(
                base@,
                texts(uris@.take(i as int)),
            ).push(u));
        }
        i = i + 1;
    }
    proof {
        assert(uris@.take(i as int) =~= uris@);
    }
    out
}

/// The name of the file for the stream at a URL: the last part of the URL with `.ts` behind.
pub open spec fn stream_name(url: Seq<char>) -> Seq<char> {
    let t = trim_end_char(url, '/');
    match t.index_of_last('/') {
        Some(k) => t.skip(k + 1) + ".ts"@,
        None => "output.ts"@,
    }
}

/// The name of the file for the stream at a URL.
pub fn output_name(url: &str) -> (res: String)
    ensures
        res@ == stream_name(url@),
{
    let t = without_end(&text::chars_of(url), '/');
    let n = t.len();
    match text::find_last(&t, '/') {
        Some(k) => {
            let mut out = text::string_of(&text::slice(&t, k + 1, n));
            out.append(".ts");
            out
        },
        None => "output.ts".to_owned(),
    }
}

/// A number of workers, cut to 32 bits.
pub open spec fn low32(n: usize) -> u32 {
    (n as int % 0x1_0000_0000) as u32
}

/// Where a stream goes: where it was told to, or else to the file that is named after it.
pub open spec fn stream_target(url: Seq<char>, output: Option<Seq<char>>) -> Seq<char> {
    match output {
        Some(p) => p,
        None => stream_name(url),
    }
}

/// Where a stream goes that is fetched at once and not queued: where it was told to, or else to the
/// file that is named after the directory of its playlist.
pub open spec fn direct_target(url: Seq<char>, output: Option<Seq<char>>) -> Seq<char> {
    match output {
        Some(p) => p,
        None => stream_name(base_of(url)),
    }
}

/// Where a stream goes that is fetched at once and not queued.
pub fn direct_output(playlist_url: &str, output: &Option<String>) -> (res: String)
    ensures
        res@ == direct_target(playlist_url@, opt_text(*output)),
{
    match output {
        Some(p) => p.clone(),
        None => output_name(base_url(playlist_url).as_str()),
    }
}

/// Adds the stream at a URL to the queue, under the present second as its id, which is given back.
pub fn download_hls_via_registry(
    registry: &mut Registry,
    playlist_url: &str,
    output: &Option<String>,
    quality: String,
    concurrent: usize,
) -> (res: Result<String, RegistryError>)
    requires
        old(registry).wf(),
    ensures
        final(registry).wf(),
        final(registry).inner.settings == old(registry).inner.settings,
        added(
            old(registry)@,
            final(registry)@,
            id_text(res),
            |id: Seq<char>|
                hls_entry(
                    id,
                    playlist_url@,
                    stream_target(playlist_url@, opt_text(*output)),
                    Some(quality@),
                    Some(low32(concurrent)),
                ),
        ),
{
    let target: String = match output {
        Some(p) => p.clone(),
        None => output_name(playlist_url),
    };
    let limit: u32 = (concurrent as u64 % 0x1_0000_0000) as u32;
    let ghost before = registry@;
    let res = registry.add_hls(playlist_url.to_owned(), target, Some(quality), Some(limit));
    proof {
        let entry = |id: Seq<char>|
            hls_entry(
                id,
                playlist_url@,
                stream_target(playlist_url@, opt_text(*output)),
                Some(quality@),
                Some(low32(concurrent)),
            );
        assert(added(before, registry@, id_text(res), entry));
    }
    res
}

/// How far a variant is from the wish; the nearest is chosen.
pub open spec fn is_first_smallest(keys: Seq<int>, k: int) -> bool {
    &&& 0 <= k < keys.len()
    &&& forall|j: int| 0 <= j < keys.len() ==> keys[k] <= #[trigger] keys[j]
    &&& forall|j: int| 0 <= j < k ==> keys[k] < #[trigger] keys[j]
}

/// The last of the largest keys.
pub open spec fn is_last_largest(keys: Seq<int>, k: int) -> bool {
    &&& 0 <= k < keys.len()
    &&& forall|j: int| 0 <= j < keys.len() ==> #[trigger] keys[j] <= keys[k]
    &&& forall|j: int| k < j < keys.len() ==> #[trigger] keys[j] < keys[k]
}

/// The bandwidths of some variants, added up.
pub open spec fn bandwidth_sum(v: Seq<VariantView>) -> int
    decreases v.len(),
{
    if v.len() == 0 {
        0
    } else {
        bandwidth_sum(v.drop_last()) + v.last().bandwidth
    }
}

/// The distance of a bandwidth from the middle.
pub open spec fn distance(bandwidth: int, mid: int) -> int {
    if bandwidth < mid {
        mid - bandwidth
    } else {
        bandwidth - mid
    }
}

/// The bandwidths of some variants.
pub open spec fn bandwidths(v: Seq<VariantView>) -> Seq<int> {
    v.map_values(|x: VariantView| x.bandwidth as int)
}

/// How far the variants are from the mean bandwidth.
pub open spec fn distances(v: Seq<VariantView>) -> Seq<int> {
    let mid = bandwidth_sum(v) / v.len() as int;
    v.map_values(|x: VariantView| distance(x.bandwidth as int, mid))
}

/// The quality asks for the middle of the variants.
pub open spec fn wants_middle(quality: Seq<char>) -> bool {
    quality == "med"@ || quality == "medium"@
}

/// The place in a list of so many variants that a quality names by its number, counted from 0.
pub open spec fn named_index(quality: Seq<char>, count: nat) -> Option<int> {
    match number::u64_of(quality) {
        Some(n) => if n < count {
            Some(n as int)
        } else {
            None
        },
        None => None,
    }
}

/// The variant that a quality selects: the first with the least bandwidth for `low`, the first
/// nearest to the mean for `med`, the one at that place for a number that is one, and the last with
/// the most bandwidth otherwise.
pub open spec fn is_selected(v: Seq<VariantView>, quality: Seq<char>, k: int) -> bool {
    if quality == "low"@ {
        is_first_smallest(bandwidths(v), k)
    } else if wants_middle(quality) {
        is_first_smallest(distances(v), k)
    } else {
        match named_index(quality, v.len()) {
            Some(i) => k == i,
            None => is_last_largest(bandwidths(v), k),
        }
    }
}

/// The quality asks for the mean of bandwidths that cannot be added up.
pub open spec fn overflows(v: Seq<VariantView>, quality: Seq<char>) -> bool {
    quality != "low"@ && wants_middle(quality) && bandwidth_sum(v) > u64::MAX
}

proof fn lemma_sum_monotone(v: Seq<VariantView>, n: int)
    requires
        0 <= n <= v.len(),
    ensures
        0 <= bandwidth_sum(v.take(n)) <= bandwidth_sum(v),
    decreases v.len() - n, n,
{
    if n < v.len() {
        lemma_sum_monotone(v, n + 1);
        assert(v.take(n + 1).drop_last() =~= v.take(n));
        lemma_sum_positive(v.take(n));
    } else {
        assert(v.take(n) =~= v);
        lemma_sum_positive(v);
    }
}

proof fn lemma_sum_positive(v: Seq<VariantView>)
    ensures
        bandwidth_sum(v) >= 0,
    decreases v.len(),
{
    if v.len() > 0 {
        lemma_sum_positive(v.drop_last());
    }
}

/// The bandwidths of some variants, added up, where the sum is a number of 64 bits.
fn total_bandwidth(variants: &Vec<Variant>) -> (res: Option<u64>)
    ensures
        match res {
            Some(n) => n == bandwidth_sum(variant_views(variants@)),
            None => bandwidth_sum(variant_views(variants@)) > u64::MAX,
        },
{
    let ghost all = variant_views(variants@);
    let mut total: u64 = 0;
    let mut i: usize = 0;
    while i < variants.len()
        invariant
            i <= variants@.len(),
            all == variant_views(variants@),
            total == bandwidth_sum(all.take(i as int)),
        decreases variants@.len() - i,
    {
        proof {
            assert(all.take(i + 1).drop_last() =~= all.take(i as int));
            assert(all.take(i + 1).last() == variants@[i as int]@);
            lemma_sum_monotone(all, i + 1);
        }
        match total.checked_add(variants[i].bandwidth) {
            Some(t) => {
                total = t;
            },
            None => {
                return None;
            },
        }
        i = i + 1;
    }
    proof {
        assert(all.take(i as int) =~= all);
    }
    Some(total)
}

fn distance_of(bandwidth: u64, mid: u64) -> (res: u64)
    ensures
        res == distance(bandwidth as int, mid as int),
{
    if bandwidth < mid {
        mid - bandwidth
    } else {
        bandwidth - mid
    }
}

/// Which variant a quality selects; an error where there is none, or where the mean is asked for and
/// the bandwidths cannot be added up.
pub fn select_variant(variants: &Vec<Variant>, quality: &str) -> (res: Result<usize, HlsError>)
    ensures
        match res {
            Ok(k) => is_selected(variant_views(variants@), quality@, k as int) && k
                < variants@.len() && !overflows(variant_views(variants@), quality@),
            Err(HlsError::NoVariants) => variants@.len() == 0,
            Err(HlsError::BandwidthOverflow) => variants@.len() > 0 && overflows(
                variant_views(variants@),
                quality@,
            ),
            Err(_) => false,
        },
{
    if variants.len() == 0 {
        return Err(HlsError::NoVariants);
    }
    let ghost all = variant_views(variants@);
    let low = text::eq(quality, "low");
    let middle = !low && (text::eq(quality, "med") || text::eq(quality, "medium"));
    let mut mid: u64 = 0;
    if middle {
        match total_bandwidth(variants) {
            Some(total) => {
                mid = total / variants.len() as u64;
            },
            None => {
                return Err(HlsError::BandwidthOverflow);
            },
        }
    }
    if !low && !middle {
        if let Some(n) = number::parse_u64(&text::chars_of(quality)) {
            if n < variants.len() as u64 {
                return Ok(n as usize);
            }
        }
    }
    let mut best: usize = 0;
    let mut i: usize = 1;
    while i < variants.len()
        invariant
            1 <= i <= variants@.len(),
            best < i,
            all == variant_views(variants@),
            low == (quality@ == "low"@),
            middle == (!low && wants_middle(quality@)),
            middle ==> mid == bandwidth_sum(all) / all.len() as int,
            low ==> is_first_smallest(bandwidths(all.take(i as int)), best as int),
            middle ==> (forall|j: int|
                0 <= j < i ==> distance(all[best as int].bandwidth as int, mid as int) <= distance(
                    (#[trigger] all[j]).bandwidth as int,
                    mid as int,
                )),
            middle ==> (forall|j: int|
                0 <= j < best ==> distance(all[best as int].bandwidth as int, mid as int)
                    < distance((#[trigger] all[j]).bandwidth as int, mid as int)),
            !low && !middle ==> is_last_largest(bandwidths(all.take(i as int)), best as int),
        decreases variants@.len() - i,
    {
        proof {
            assert(all[i as int] == variants@[i as int]@);
            assert(all[best as int] == variants@[best as int]@);
            let a = bandwidths(all.take(i as int));
            let b = bandwidths(all.take(i + 1));
            assert(b =~= a.push(all[i as int].bandwidth as int));
        }
        let better = if low {
            variants[i].bandwidth < variants[best].bandwidth
        } else if middle {
            distance_of(variants[i].bandwidth, mid) < distance_of(variants[best].bandwidth, mid)
        } else {
            variants[i].bandwidth >= variants[best].bandwidth
        };
        if better {
            best = i;
        }
        i = i + 1;
    }
    proof {
        assert(all.take(i as int) =~= all);
        assert(middle ==> is_first_smallest(distances(all), best as int));
    }
    Ok(best)
}

/// What a playlist leads to.
#[derive(Debug)]
pub enum Lead {
    /// The segments of the stream.
    Segments(Vec<String>),
    /// The playlist of the selected variant, out of so many.
    Variant { url: String, bandwidth: u64, resolution: Option<(u64, u64)>, count: usize },
}

/// The list of variants leads to the playlist of the selected one, if there is one.
pub open spec fn leads_to_variant(
    playlist_url: Seq<char>,
    v: Seq<VariantView>,
    quality: Seq<char>,
    res: Result<Lead, HlsError>,
) -> bool {
    match res {
        Ok(Lead::Variant { url, bandwidth, resolution, count }) => {
            &&& count == v.len()
            &&& !overflows(v, quality)
            &&& exists|k: int|
                #![trigger is_selected(v, quality, k)]
                is_selected(v, quality, k) && url@ == resolved(playlist_url, v[k].uri) && bandwidth
                    == v[k].bandwidth && resolution == v[k].resolution
        },
        Err(HlsError::NoVariants) => v.len() == 0,
        Err(HlsError::BandwidthOverflow) => v.len() > 0 && overflows(v, quality),
        _ => false,
    }
}

/// The list of segments leads to them.
pub open spec fn leads_to_segments(
    playlist_url: Seq<char>,
    uris: Seq<Seq<char>>,
    res: Result<Lead, HlsError>,
) -> bool {
    match res {
        Ok(Lead::Segments(urls)) => texts(urls@) == resolved_all(playlist_url, uris),
        _ => false,
    }
}

/// What a playlist at a URL leads to: a variant where it lists variants, its segments otherwise.
pub fn follow(playlist_url: &str, playlist: &Playlist, quality: &str) -> (res: Result<
    Lead,
    HlsError,
>)
    ensures
        match playlist@ {
            PlaylistView::Media(uris) => leads_to_segments(playlist_url@, uris, res),
            PlaylistView::Master(v) => leads_to_variant(playlist_url@, v, quality@, res),
        },
{
    match playlist {
        Playlist::Media(uris) => Ok(Lead::Segments(resolve_all(playlist_url, uris))),
        Playlist::Master(variants) => {
            let ghost v = variant_views(variants@);
            match select_variant(variants, quality) {
                Ok(k) => {
                    let selected = &variants[k];
                    assert(v[k as int] == selected@);
                    assert(is_selected(v, quality@, k as int));
                    Ok(
                        Lead::Variant {
                            url: resolve_url(playlist_url, selected.uri.as_str()),
                            bandwidth: selected.bandwidth,
                            resolution: selected.resolution,
                            count: variants.len(),
                        },
                    )
                },
                Err(HlsError::NoVariants) => Err(HlsError::NoVariants),
                Err(_) => Err(HlsError::BandwidthOverflow),
            }
        },
    }
}

/// The segments of a stream, where there are any.
pub fn nonempty(urls: Vec<String>) -> (res: Result<Vec<String>, HlsError>)
    ensures
        match res {
            Ok(v) => v == urls && urls@.len() > 0,
            Err(e) => urls@.len() == 0 && e is NoSegments,
        },
{
    if urls.len() == 0 {
        Err(HlsError::NoSegments)
    } else {
        Ok(urls)
    }
}

/// The segments that the playlist of a variant lists.
pub fn media_of(variant_url: &str, playlist: &Playlist) -> (res: Result<Vec<String>, HlsError>)
    ensures
        match (playlist@, res) {
            (PlaylistView::Media(uris), Ok(urls)) => texts(urls@) == resolved_all(
                variant_url@,
                uris,
            ),
            (PlaylistView::Master(_), Err(e)) => e is ExpectedMedia,
            _ => false,
        },
{
    match playlist {
        Playlist::Media(uris) => Ok(resolve_all(variant_url, uris)),
        Playlist::Master(_) => Err(HlsError::ExpectedMedia),
    }
}

/// Reads the playlist of a stream and says what it leads to.
pub fn read_playlist(playlist_url: &str, body: &str, quality: &str) -> (res: Result<
    Lead,
    HlsError,
>)
    ensures
        match m3u8_playlist(body@) {
            Err(reason) => res matches Err(HlsError::BadPlaylist(e)) && e@ == reason,
            Ok(PlaylistView::Media(uris)) => leads_to_segments(playlist_url@, uris, res),
            Ok(PlaylistView::Master(v)) => leads_to_variant(playlist_url@, v, quality@, res),
        },
{
    match parse_playlist(body) {
        Ok(playlist) => follow(playlist_url, &playlist, quality),
        Err(e) => Err(HlsError::BadPlaylist(e)),
    }
}

/// Reads the playlist of a variant and gives its segments.
pub fn read_media_playlist(variant_url: &str, body: &str) -> (res: Result<Vec<String>, HlsError>)
    ensures
        match m3u8_playlist(body@) {
            Err(reason) => res matches Err(HlsError::BadPlaylist(e)) && e@ == reason,
            Ok(PlaylistView::Media(uris)) => res matches Ok(urls) && texts(urls@) == resolved_all(
                variant_url@,
                uris,
            ),
            Ok(PlaylistView::Master(_)) => res matches Err(HlsError::ExpectedMedia),
        },
{
    match parse_playlist(body) {
        Ok(playlist) => media_of(variant_url, &playlist),
        Err(e) => Err(HlsError::BadPlaylist(e)),
    }
}

/// A quality selects no more than one variant.
pub proof fn law_selection_is_unique(v: Seq<VariantView>, quality: Seq<char>, j: int, k: int)
    requires
        is_selected(v, quality, j),
        is_selected(v, quality, k),
    ensures
        j == k,
{
    let b = bandwidths(v);
    let d = distances(v);
    if quality == "low"@ {
        assert(b[j] <= b[k] && b[k] <= b[j]);
    } else if wants_middle(quality) {
        assert(d[j] <= d[k] && d[k] <= d[j]);
    } else if named_index(quality, v.len()) is None {
        assert(b[j] <= b[k] && b[k] <= b[j]);
    }
}

/// An absolute URI is never changed, whatever playlist names it.
pub proof fn law_absolute_uris_stay(base: Seq<char>, uri: Seq<char>)
    requires
        text::begins(uri, "http"@),
    ensures
        resolved(base, uri) == uri,
{
}

proof fn lemma_trimmed_end(s: Seq<char>, c: char)
    ensures
        s.len() == 0 || s.last() != c ==> trim_end_char(s, c) == s,
        trim_end_char(s.push(c), c) == trim_end_char(s, c),
{
    assert(s.push(c).drop_last() =~= s);
}

/// The last slash before a name without slashes is the one in front of it.
proof fn lemma_last_slash(dir: Seq<char>, name: Seq<char>)
    requires
        !name.contains('/'),
    ensures
        (dir + "/"@ + name).index_of_last('/') == Some(dir.len() as int),
        (dir + "/"@ + name).take(dir.len() as int) == dir,
        (dir + "/"@ + name).skip(dir.len() as int + 1) == name,
{
    reveal_strlit("/");
    let s = dir + "/"@ + name;
    assert("/"@ =~= seq!['/']);
    assert(s[dir.len() as int] == '/');
    s.index_of_last_ensures('/');
    let k = s.index_of_last('/')->0;
    if k > dir.len() {
        assert(name[k - dir.len() - 1] == '/');
    }
    assert(s.take(dir.len() as int) =~= dir);
    assert(s.skip(dir.len() as int + 1) =~= name);
}

proof fn lemma_not_http(uri: Seq<char>)
    ensures
        text::begins(uri, "http"@) <==> uri.len() >= 4 && uri[0] == 'h' && uri[1] == 't' && uri[2]
            == 't' && uri[3] == 'p',
{
    reveal_strlit("http");
    assert("http"@ =~= seq!['h', 't', 't', 'p']);
    if uri.len() >= 4 {
        let head = uri.subrange(0, 4);
        assert(head.len() == 4 && head[0] == uri[0] && head[1] == uri[1] && head[2] == uri[2]
            && head[3] == uri[3]);
        if uri[0] == 'h' && uri[1] == 't' && uri[2] == 't' && uri[3] == 'p' {
            assert(head =~= "http"@);
        }
    }
}

/// A URI that begins with `http` is taken as it is, and no other: any other one is put, whole and
/// unchanged but for the slashes at its start, beside the playlist that names it, in the place of the
/// name of the playlist. Slashes at the end of the URL of a playlist do not count.
pub proof fn law_relative_uris_stand_beside_their_playlist(
    dir: Seq<char>,
    name: Seq<char>,
    uri: Seq<char>,
)
    requires
        name.len() > 0,
        !name.contains('/'),
        !(uri.len() >= 4 && uri[0] == 'h' && uri[1] == 't' && uri[2] == 't' && uri[3] == 'p'),
        uri.len() == 0 || uri[0] != '/',
    ensures
        resolved(dir + "/"@ + name, uri) == dir + "/"@ + uri,
        resolved((dir + "/"@ + name).push('/'), uri) == dir + "/"@ + uri,
        resolved(dir + "/"@ + name, seq!['/'] + uri) == dir + "/"@ + uri,
        resolved(name, uri) == name + "/"@ + uri,
{
    let url = dir + "/"@ + name;
    lemma_not_http(uri);
    lemma_not_http(seq!['/'] + uri);
    lemma_last_slash(dir, name);
    assert(url.last() == name.last());
    assert(name.contains(name.last()));
    lemma_trimmed_end(url, '/');
    lemma_trimmed_end(name, '/');
    name.index_of_last_ensures('/');
    assert((seq!['/'] + uri).skip(1) =~= uri);
    reveal_with_fuel(trim_start_char, 3);
}

/// A URI that begins with `http` means itself in every playlist.
pub proof fn law_http_uris_mean_themselves(base: Seq<char>, uri: Seq<char>)
    requires
        uri.len() >= 4,
        uri[0] == 'h',
        uri[1] == 't',
        uri[2] == 't',
        uri[3] == 'p',
    ensures
        resolved(base, uri) == uri,
{
    lemma_not_http(uri);
}

/// The segments of a playlist are all resolved, each by itself and in their order.
pub proof fn law_segments_keep_their_order(base: Seq<char>, uris: Seq<Seq<char>>, i: int)
    requires
        0 <= i < uris.len(),
    ensures
        resolved_all(base, uris).len() == uris.len(),
        resolved_all(base, uris)[i] == resolved(base, uris[i]),
{
}

/// A stream is named after the last part of its URL, and after nothing where the URL has one part
/// only. A stream that is fetched at once is named after the directory of its playlist. A name that
/// was asked for is kept.
pub proof fn law_streams_are_named_after_their_url(
    dir: Seq<char>,
    folder: Seq<char>,
    name: Seq<char>,
    asked: Seq<char>,
)
    requires
        name.len() > 0,
        !name.contains('/'),
        folder.len() > 0,
        !folder.contains('/'),
    ensures
        stream_target(dir + "/"@ + name, None) == name + ".ts"@,
        stream_target((dir + "/"@ + name).push('/'), None) == name + ".ts"@,
        stream_target(name, None) == "output.ts"@,
        direct_target((dir + "/"@ + folder) + "/"@ + name, None) == folder + ".ts"@,
        stream_target(dir, Some(asked)) == asked,
        direct_target(dir, Some(asked)) == asked,
{
    let url = dir + "/"@ + name;
    let inner = dir + "/"@ + folder;
    let deep = inner + "/"@ + name;
    lemma_last_slash(dir, name);
    lemma_last_slash(dir, folder);
    lemma_last_slash(inner, name);
    assert(name.contains(name.last()));
    assert(folder.contains(folder.last()));
    assert(url.last() == name.last());
    assert(inner.last() == folder.last());
    assert(deep.last() == name.last());
    lemma_trimmed_end(url, '/');
    lemma_trimmed_end(inner, '/');
    lemma_trimmed_end(deep, '/');
    lemma_trimmed_end(name, '/');
    name.index_of_last_ensures('/');
}

/// The words `low` and `med` or `medium` select the variant that takes least, the first of them, and
/// the first of those that are nearest to the mean of all; a number selects the variant at its place;
/// any other word selects the one that takes most, the last of them.
pub proof fn law_qualities_select_by_bandwidth(
    v: Seq<VariantView>,
    quality: Seq<char>,
    k: int,
    j: int,
    mean: int,
)
    requires
        is_selected(v, quality, k),
        0 <= j < v.len(),
        mean * v.len() <= bandwidth_sum(v) < (mean + 1) * v.len(),
    ensures
        0 <= k < v.len(),
        quality == "low"@ ==> v[k].bandwidth <= v[j].bandwidth && (j < k ==> v[k].bandwidth
            < v[j].bandwidth),
        quality == "med"@ || quality == "medium"@ ==> {
            let far = |b: int| if b < mean { mean - b } else { b - mean };
            far(v[k].bandwidth as int) <= far(v[j].bandwidth as int) && (j < k ==> far(
                v[k].bandwidth as int,
            ) < far(v[j].bandwidth as int))
        },
        quality != "low"@ && quality != "med"@ && quality != "medium"@ ==> match number::u64_of(
            quality,
        ) {
            Some(n) if n < v.len() => k == n,
            _ => v[j].bandwidth <= v[k].bandwidth && (k < j ==> v[j].bandwidth < v[k].bandwidth),
        },
{
    let b = bandwidths(v);
    let d = distances(v);
    assert(b[j] == v[j].bandwidth);
    assert(d[j] == distance(v[j].bandwidth as int, bandwidth_sum(v) / v.len() as int));
    reveal_strlit("low");
    reveal_strlit("med");
    reveal_strlit("medium");
    assert("low"@[0] != "med"@[0] && "low"@[0] != "medium"@[0]);
    let n = v.len() as int;
    let sum = bandwidth_sum(v);
    assert(mean == sum / n) by (nonlinear_arith)
        requires
            n > 0,
            mean * n <= sum < (mean + 1) * n,
    ;
    if 0 <= k < v.len() {
        assert(b[k] == v[k].bandwidth);
        assert(d[k] == distance(v[k].bandwidth as int, sum / n));
    }
}

/// The bandwidths of no variants add up to nothing, and one more variant adds its own.
pub proof fn law_bandwidths_add_up(v: Seq<VariantView>, x: VariantView)
    ensures
        bandwidth_sum(Seq::<VariantView>::empty()) == 0,
        bandwidth_sum(v.push(x)) == bandwidth_sum(v) + x.bandwidth,
{
    assert(v.push(x).drop_last() =~= v);
}

/// A list of variants leads to one of them, with its own bandwidth and resolution, under the URL that
/// its URI means; it fails only where it is empty, or where the mean is asked for and the bandwidths
/// add up to more than 64 bits hold.
pub proof fn law_variants_lead_to_the_selected_one(
    playlist_url: Seq<char>,
    v: Seq<VariantView>,
    quality: Seq<char>,
    res: Result<Lead, HlsError>,
)
    requires
        leads_to_variant(playlist_url, v, quality, res),
    ensures
        match res {
            Ok(Lead::Variant { url, bandwidth, resolution, count }) => count == v.len() && exists|
                k: int,
            |
                {
                    &&& #[trigger] is_selected(v, quality, k)
                    &&& url@ == resolved(playlist_url, v[k].uri)
                    &&& bandwidth == v[k].bandwidth
                    &&& resolution == v[k].resolution
                },
            Ok(Lead::Segments(_)) => false,
            Err(e) => v.len() == 0 || ((quality == "med"@ || quality == "medium"@)
                && bandwidth_sum(v) > u64::MAX),
        },
        v.len() > 0 && bandwidth_sum(v) <= u64::MAX ==> res is Ok,
{
}

/// A number of segments at a time that 32 bits hold stays as it is; another is off by a multiple of what
/// they count.
pub proof fn law_counts_of_32_bits_stay(n: usize)
    ensures
        n < 0x1_0000_0000 ==> low32(n) == n,
        (n - low32(n)) % 0x1_0000_0000 == 0,
{
}

} // verus!
