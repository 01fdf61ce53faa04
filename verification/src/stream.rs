//! One run of a stream download: which segments are fetched, what is kept to resume, and how the
//! segments are put together.

use crate::number;
use crate::path;
use crate::text;
use crate::types::{DownloadEntry, opt_text, texts};
use crate::wire;
use vstd::prelude::*;

verus! {

/// How many segments are fetched at a time, where nothing else is set.
pub const DEFAULT_CONCURRENT: u32 = 8;

/// The quality that a stream is fetched in: the best, where nothing else is set.
pub fn quality_of(entry: &DownloadEntry) -> (res: String)
    ensures
        res@ == match opt_text(entry.hls_quality) {
            Some(q) => q,
            None => "best"@,
        },
{
    match &entry.hls_quality {
        Some(q) => q.clone(),
        None => "best".to_owned(),
    }
}

/// How many segments of a stream are fetched at a time.
pub fn concurrency_of(entry: &DownloadEntry) -> (res: usize)
    ensures
        res == match entry.hls_concurrent {
            Some(n) => n,
            None => DEFAULT_CONCURRENT,
        },
        entry.hls_concurrent is None ==> res == 8,
{
    match entry.hls_concurrent {
        Some(n) => n as usize,
        None => DEFAULT_CONCURRENT as usize,
    }
}

/// The snapshot of a stream download.
pub fn snapshot_path(target: &str) -> (res: String)
    ensures
        res@ == path::with_extension_of(target@, "hls.warp"@),
{
    path::with_extension(target, "hls.warp")
}

/// The directory in which the segments of a stream are kept.
pub fn parts_dir(target: &str) -> (res: String)
    ensures
        res@ == path::with_extension_of(target@, "hls_parts"@),
{
    path::with_extension(target, "hls_parts")
}

/// The file in which the segments of a stream are put together.
pub fn concat_path(target: &str) -> (res: String)
    ensures
        res@ == path::with_extension_of(target@, "hlspart"@),
{
    path::with_extension(target, "hlspart")
}

/// Zeros.
pub open spec fn zeros(n: nat) -> Seq<char> {
    Seq::new(n, |i: int| '0')
}

/// A number in decimal, with zeros before it up to six digits.
pub open spec fn padded6(n: nat) -> Seq<char> {
    let d = number::decimal(n);
    if d.len() < 6 {
        zeros((6 - d.len()) as nat) + d
    } else {
        d
    }
}

/// The name of the file that holds a segment.
pub fn part_name(index: u64) -> (res: String)
    ensures
        res@ == padded6(index as nat) + ".part"@,
{
    let mut d = number::to_decimal(index as u128);
    let mut out: Vec<char> = Vec::new();
    let width: usize = d.len();
    if width < 6 {
        let missing: usize = 6 - width;
        let mut i: usize = 0;
        while i < missing
            invariant
                i <= missing,
                out@ == zeros(i as nat),
            decreases missing - i,
        {
            out.push('0');
            assert(out@ =~= zeros((i + 1) as nat));
            i = i + 1;
        }
    }
    out.append(&mut d);
    proof {
        assert(out@ =~= padded6(index as nat));
    }
    let mut name = text::string_of(&out);
    name.append(".part");
    name
}

/// What the run does next.
#[derive(Debug, Clone, Copy, PartialEq, Eq, Structural)]
pub enum StreamAction {
    /// Start fetching this segment.
    Fetch(u64),
    /// Wait for one of the segments that are being fetched.
    Join,
    /// All segments are there: put them together.
    Concatenate,
}

/// A run of a stream download.
pub struct StreamRun {
    /// Where the segments are.
    pub segment_urls: Vec<String>,
    /// The segments that are there, each listed once.
    pub completed: Vec<u64>,
    /// The segments that are being fetched.
    pub in_flight: Vec<u64>,
    /// The first segment that was not looked at yet.
    pub next: u64,
    /// How many segments may be fetched at a time.
    pub limit: usize,
}

/// Whether a number is listed.
fn is_listed(list: &Vec<u64>, n: u64) -> (res: bool)
    ensures
        res == list@.contains(n),
{
    let mut i: usize = 0;
    while i < list.len()
        invariant
            i <= list@.len(),
            forall|k: int| 0 <= k < i ==> list@[k] != n,
        decreases list@.len() - i,
    {
        if list[i] == n {
            return true;
        }
        i = i + 1;
    }
    false
}

/// A list after a number was added to it, unless it was there.
pub open spec fn with_number(list: Seq<u64>, n: u64) -> Seq<u64> {
    if list.contains(n) {
        list
    } else {
        list.push(n)
    }
}

/// The numbers of a list, each once, in the order in which they came first.
pub open spec fn distinct_numbers(list: Seq<u64>) -> Seq<u64>
    decreases list.len(),
{
    if list.len() == 0 {
        Seq::empty()
    } else {
        with_number(distinct_numbers(list.drop_last()), list.last())
    }
}

fn add_number(list: &mut Vec<u64>, n: u64)
    requires
        old(list)@.no_duplicates(),
    ensures
        final(list)@ == with_number(old(list)@, n),
        final(list)@.no_duplicates(),
{
    if !is_listed(list, n) {
        list.push(n);
    }
}

impl StreamRun {
    /// How many segments the stream has.
    pub open spec fn total(self) -> int {
        self.segment_urls@.len() as int
    }

    /// Every segment that was looked at is there or being fetched, not both, and nothing is listed
    /// twice.
    pub open spec fn wf(self) -> bool {
        &&& self.limit >= 1
        &&& self.total() <= u64::MAX
        &&& self.next <= self.total()
        &&& self.completed@.no_duplicates()
        &&& self.in_flight@.no_duplicates()
        &&& forall|i: u64|
            i < self.next ==> self.completed@.contains(i) || #[trigger] self.in_flight@.contains(i)
        &&& forall|i: u64| #[trigger]
            self.in_flight@.contains(i) ==> i < self.next && !self.completed@.contains(i)
    }

    /// A run that has fetched nothing but what a snapshot tells.
    pub fn new(segment_urls: Vec<String>, done_before: &Vec<u64>, limit: usize) -> (res: Self)
        requires
            limit >= 1,
            segment_urls@.len() <= u64::MAX,
        ensures
            res.wf(),
            res.segment_urls == segment_urls,
            res.completed@ == distinct_numbers(done_before@),
            res.in_flight@.len() == 0,
            res.next == 0,
            res.limit == limit,
    {
        let mut completed: Vec<u64> = Vec::new();
        let mut i: usize = 0;
        while i < done_before.len()
            invariant
                i <= done_before@.len(),
                completed@ == distinct_numbers(done_before@.take(i as int)),
                completed@.no_duplicates(),
            decreases done_before@.len() - i,
        {
            add_number(&mut completed, done_before[i]);
            proof {
                assert(done_before@.take(i + 1).drop_last() =~= done_before@.take(i as int));
            }
            i = i + 1;
        }
        proof {
            assert(done_before@.take(i as int) =~= done_before@);
        }
        StreamRun { segment_urls, completed, in_flight: Vec::new(), next: 0, limit }
    }

    /// Segments from the next one on that are there already.
    pub open spec fn done_from(self, i: int) -> bool {
        forall|j: u64| self.next <= j < i ==> #[trigger] self.completed@.contains(j)
    }

    /// Chooses what to do next: fetch the next segment that is missing if a place is free, and wait
    /// for one that is being fetched otherwise. No segment that is there or being fetched is fetched
    /// again.
    pub fn next_action(&mut self) -> (res: StreamAction)
        requires
            old(self).wf(),
        ensures
            final(self).wf(),
            final(self).segment_urls == old(self).segment_urls,
            final(self).completed == old(self).completed,
            final(self).limit == old(self).limit,
            old(self).next <= final(self).next,
            res matches StreamAction::Fetch(i) ==> i < old(self).segment_urls@.len() && !old(
                self,
            ).completed@.contains(i) && !old(self).in_flight@.contains(i),
            res is Concatenate ==> forall|i: u64|
                i < old(self).segment_urls@.len() ==> #[trigger] old(self).completed@.contains(i),
            res is Join ==> old(self).in_flight@.len() > 0,
            match res {
                StreamAction::Fetch(i) => {
                    &&& old(self).next <= i < old(self).total()
                    &&& old(self).done_from(i as int)
                    &&& !old(self).completed@.contains(i)
                    &&& !old(self).in_flight@.contains(i)
                    &&& old(self).in_flight@.len() < old(self).limit
                    &&& final(self).in_flight@ == old(self).in_flight@.push(i)
                    &&& final(self).next == i + 1
                },
                StreamAction::Join => {
                    &&& old(self).in_flight@.len() > 0
                    &&& final(self).in_flight == old(self).in_flight
                    &&& old(self).done_from(final(self).next as int)
                    &&& final(self).next == old(self).total() || (!old(self).completed@.contains(
                        final(self).next,
                    ) && old(self).in_flight@.len() >= old(self).limit)
                },
                StreamAction::Concatenate => {
                    &&& old(self).in_flight@.len() == 0
                    &&& final(self).in_flight == old(self).in_flight
                    &&& final(self).next == old(self).total()
                    &&& old(self).done_from(old(self).total())
                },
            },
    {
        let total: u64 = self.segment_urls.len() as u64;
        while self.next < total && is_listed(&self.completed, self.next)
            invariant
                self.wf(),
                total == self.total(),
                self.segment_urls == old(self).segment_urls,
                self.completed == old(self).completed,
                self.in_flight == old(self).in_flight,
                self.limit == old(self).limit,
                old(self).next <= self.next,
                old(self).done_from(self.next as int),
            decreases total - self.next,
        {
            self.next = self.next + 1;
        }
        if self.next < total {
            if self.in_flight.len() >= self.limit {
                StreamAction::Join
            } else {
                let i = self.next;
                let ghost before = self.in_flight@;
                self.in_flight.push(i);
                self.next = i + 1;
                proof {
                    assert(!before.contains(i));
                    assert(self.in_flight@[before.len() as int] == i);
                    assert forall|j: u64| j < self.next implies self.completed@.contains(j)
                        || #[trigger] self.in_flight@.contains(j) by {
                        if j < i && !self.completed@.contains(j) {
                            assert(before.contains(j));
                            let k = choose|k: int| 0 <= k < before.len() && before[k] == j;
                            assert(self.in_flight@[k] == j);
                        }
                    }
                    assert forall|j: u64| #[trigger] self.in_flight@.contains(j) implies j
                        < self.next && !self.completed@.contains(j) by {
                        if j != i {
                            let k = choose|k: int|
                                0 <= k < self.in_flight@.len() && self.in_flight@[k] == j;
                            assert(before[k] == j);
                            assert(before.contains(j));
                        }
                    }
                }
                StreamAction::Fetch(i)
            }
        } else if self.in_flight.len() > 0 {
            proof {
                let x = self.in_flight@[0];
                assert(self.in_flight@.contains(x));
            }
            StreamAction::Join
        } else {
            proof {
                assert forall|i: u64| i < total implies #[trigger] self.completed@.contains(i) by {
                    assert(self.completed@.contains(i) || self.in_flight@.contains(i));
                }
            }
            StreamAction::Concatenate
        }
    }

    /// Records that a segment was fetched.
    pub fn finish_segment(&mut self, index: u64)
        requires
            old(self).wf(),
            old(self).in_flight@.contains(index),
        ensures
            final(self).wf(),
            final(self).segment_urls == old(self).segment_urls,
            final(self).limit == old(self).limit,
            final(self).next == old(self).next,
            final(self).completed@ == old(self).completed@.push(index),
            final(self).in_flight@ == old(self).in_flight@.remove(
                old(self).in_flight@.index_of(index),
            ),
    {
        let mut pos: usize = 0;
        while pos < self.in_flight.len() && self.in_flight[pos] != index
            invariant
                pos <= self.in_flight@.len(),
                *self == *old(self),
                forall|k: int| 0 <= k < pos ==> self.in_flight@[k] != index,
            decreases self.in_flight@.len() - pos,
        {
            pos = pos + 1;
        }
        let ghost before = self.in_flight@;
        let ghost done = self.completed@;
        if pos < self.in_flight.len() {
            self.in_flight.remove(pos);
        }
        self.completed.push(index);
        proof {
            let k = before.index_of(index);
            assert(before[k] == index);
            assert(pos == k);
            assert(self.completed@[done.len() as int] == index);
            assert forall|j: u64| j < self.next implies self.completed@.contains(j)
                || #[trigger] self.in_flight@.contains(j) by {
                if j != index {
                    if done.contains(j) {
                        let m = choose|m: int| 0 <= m < done.len() && done[m] == j;
                        assert(self.completed@[m] == j);
                    } else {
                        assert(before.contains(j));
                        let m = choose|m: int| 0 <= m < before.len() && before[m] == j;
                        if m < k {
                            assert(self.in_flight@[m] == j);
                        } else {
                            assert(self.in_flight@[m - 1] == j);
                        }
                    }
                }
            }
            assert forall|j: u64| #[trigger] self.in_flight@.contains(j) implies j < self.next
                && !self.completed@.contains(j) by {
                let m = choose|m: int| 0 <= m < self.in_flight@.len() && self.in_flight@[m] == j;
                let m2 = if m < k {
                    m
                } else {
                    m + 1
                };
                assert(before[m2] == j);
                assert(before.contains(j));
                assert(m2 != k);
                assert(before[m2] != before[k]);
                if self.completed@.contains(j) {
                    let c = choose|c: int|
                        0 <= c < self.completed@.len() && self.completed@[c] == j;
                    if c < done.len() {
                        assert(done[c] == j);
                    }
                }
            }
        }
    }

    /// How many segments are there.
    pub fn progress(&self) -> (res: usize)
        ensures
            res == self.completed@.len(),
    {
        self.completed.len()
    }
}

/// Once a run has nothing left to fetch or to wait for, every segment of the stream is there.
pub proof fn law_all_segments_are_there(r: StreamRun, i: u64)
    requires
        r.wf(),
        r.in_flight@.len() == 0,
        r.next == r.total(),
        i < r.total(),
    ensures
        r.completed@.contains(i),
{
    assert(!r.in_flight@.contains(i));
}

/// `bincode::serialize` writes a list as its length and its items, a text as its length in bytes and
/// its UTF-8 form, a tuple as its fields, and a number of 64 bits as eight bytes, the least
/// significant one first; it fails on none of these.
#[verifier::external_body]
fn encode_stream(urls: &Vec<String>, completed: &Vec<u64>) -> (res: Option<Vec<u8>>)
    ensures
        res is Some,
        res->0@ == wire::stream_bytes(texts(urls@), completed@),
{
    bincode::serialize(&(urls, completed)).ok()
}

/// `bincode::deserialize` reads the same form back from the start of the bytes and ignores what
/// follows; it fails where the bytes begin with no such form.
#[verifier::external_body]
fn decode_stream(bytes: &[u8]) -> (res: Option<(Vec<String>, Vec<u64>)>)
    ensures
        match res {
            Some((urls, completed)) => wire::begins_with_stream(
                bytes@,
                texts(urls@),
                completed@,
            ),
            None => forall|urls: Seq<Seq<char>>, completed: Seq<u64>|
                !#[trigger] wire::begins_with_stream(bytes@, urls, completed),
        },
{
    bincode::deserialize(bytes).ok()
}

/// What the snapshot of a stream holds.
pub struct HlsSnapshotView {
    pub segment_urls: Seq<Seq<char>>,
    pub completed: Seq<u64>,
}

/// The snapshot of a stream download.
#[derive(Debug)]
pub struct HlsSnapshot {
    /// Where the segments are.
    pub segment_urls: Vec<String>,
    /// The segments that are there.
    pub completed: Vec<u64>,
}

impl View for HlsSnapshot {
    type V = HlsSnapshotView;

    open spec fn view(&self) -> HlsSnapshotView {
        HlsSnapshotView { segment_urls: texts(self.segment_urls@), completed: self.completed@ }
    }
}

/// The bytes begin with the form of the snapshot.
pub open spec fn holds_stream(bytes: Seq<u8>, s: HlsSnapshotView) -> bool {
    wire::begins_with_stream(bytes, s.segment_urls, s.completed)
}

/// The snapshot with whose form the bytes begin.
pub open spec fn stream_in(bytes: Seq<u8>) -> Option<HlsSnapshotView> {
    if exists|s: HlsSnapshotView| holds_stream(bytes, s) {
        Some(choose|s: HlsSnapshotView| holds_stream(bytes, s))
    } else {
        None
    }
}

impl StreamRun {
    /// The binary form of a snapshot of the run as it is now.
    pub fn save_snapshot(&self) -> (res: Vec<u8>)
        ensures
            res@ == wire::stream_bytes(texts(self.segment_urls@), self.completed@),
    {
        match encode_stream(&self.segment_urls, &self.completed) {
            Some(bytes) => bytes,
            None => Vec::new(),
        }
    }
}

/// The snapshot in which the bytes begin.
pub fn load_snapshot(bytes: &[u8]) -> (res: Option<HlsSnapshot>)
    ensures
        match res {
            Some(s) => stream_in(bytes@) == Some(s@),
            None => stream_in(bytes@) is None,
        },
{
    match decode_stream(bytes) {
        Some((segment_urls, completed)) => {
            let res = HlsSnapshot { segment_urls, completed };
            proof {
                assert(holds_stream(bytes@, res@));
                let other = stream_in(bytes@)->0;
                assert(holds_stream(bytes@, other));
                wire::law_stream_is_read_back(
                    bytes@,
                    res@.segment_urls,
                    res@.completed,
                    other.segment_urls,
                    other.completed,
                );
            }
            Some(res)
        },
        None => {
            proof {
                assert forall|s: HlsSnapshotView| !holds_stream(bytes@, s) by {
                    assert(!wire::begins_with_stream(bytes@, s.segment_urls, s.completed));
                }
            }
            None
        },
    }
}

/// The segments that a snapshot file tells to be there: none where there is no file, or it cannot be
/// read.
pub fn completed_before(bytes: Option<&[u8]>) -> (res: Vec<u64>)
    ensures
        res@ == match bytes {
            Some(b) => match stream_in(b@) {
                Some(s) => s.completed,
                None => Seq::empty(),
            },
            None => Seq::empty(),
        },
{
    match bytes {
        Some(b) => match load_snapshot(b) {
            Some(s) => s.completed,
            None => Vec::new(),
        },
        None => Vec::new(),
    }
}

/// A snapshot of a stream that was written is read back as it was, even where other bytes follow it.
pub proof fn law_stream_snapshot_round_trip(s: HlsSnapshotView, rest: Seq<u8>)
    requires
        wire::fits_stream(s.segment_urls, s.completed),
    ensures
        stream_in(wire::stream_bytes(s.segment_urls, s.completed) + rest) == Some(s),
{
    let form = wire::stream_bytes(s.segment_urls, s.completed);
    let bytes = form + rest;
    assert(form =~= bytes.subrange(0, form.len() as int));
    assert(holds_stream(bytes, s));
    let t = stream_in(bytes)->0;
    assert(holds_stream(bytes, t));
    wire::law_stream_is_read_back(bytes, s.segment_urls, s.completed, t.segment_urls, t.completed);
}

/// A segment that was fetched.
#[derive(Debug)]
pub struct Segment {
    /// Its place in the stream.
    pub index: u64,
    /// Its bytes.
    pub data: Vec<u8>,
}

/// The segments stand in the order of the stream.
pub open spec fn in_stream_order(v: Seq<Segment>) -> bool {
    forall|i: int, j: int|
        0 <= i <= j < v.len() ==> (#[trigger] v[i]).index <= (#[trigger] v[j]).index
}

/// The bytes of some segments, one behind the other.
pub open spec fn joined(v: Seq<Segment>) -> Seq<u8>
    decreases v.len(),
{
    if v.len() == 0 {
        Seq::empty()
    } else {
        joined(v.drop_last()) + v.last().data@
    }
}

/// The segments of one place, in the order in which they stand.
pub open spec fn of_place(v: Seq<Segment>, place: u64) -> Seq<Segment> {
    v.filter(|s: Segment| s.index == place)
}

/// Puts the segments into the order of the stream; those of the same place keep theirs.
pub fn sort_segments(segments: Vec<Segment>) -> (res: Vec<Segment>)
    ensures
        in_stream_order(res@),
        res@.to_multiset() == segments@.to_multiset(),
        forall|place: u64| #[trigger] of_place(res@, place) == of_place(segments@, place),
        forall|i: int, j: int|
            0 <= i < j < res@.len() ==> (#[trigger] res@[i]).index <= (#[trigger] res@[j]).index,
{
    let mut rest = segments;
    let mut out: Vec<Segment> = Vec::new();
    let ghost all = segments@;
    proof {
        broadcast use vstd::seq_lib::group_to_multiset_ensures;

        assert(out@.to_multiset() =~= vstd::multiset::Multiset::empty());
        assert(out@.to_multiset().add(rest@.to_multiset()) =~= all.to_multiset());
        reveal(Seq::filter);
        assert forall|place: u64| #[trigger]
            of_place(out@, place) + of_place(rest@, place) == of_place(all, place) by {
            assert(of_place(out@, place) + of_place(rest@, place) =~= of_place(all, place));
        }
    }
    while rest.len() > 0
        invariant
            in_stream_order(out@),
            out@.to_multiset().add(rest@.to_multiset()) == all.to_multiset(),
            forall|place: u64| #[trigger]
                of_place(out@, place) + of_place(rest@, place) == of_place(all, place),
            all == segments@,
        decreases rest@.len(),
    {
        let ghost before = rest@;
        let ghost placed = out@;
        let s = rest.remove(0);
        let mut at: usize = out.len();
        while at > 0 && out[at - 1].index > s.index
            invariant
                at <= out@.len(),
                in_stream_order(out@),
                forall|k: int| at <= k < out@.len() ==> (#[trigger] out@[k]).index > s.index,
            decreases at,
        {
            at = at - 1;
        }
        out.insert(at, s);
        proof {
            broadcast use vstd::seq_lib::group_to_multiset_ensures;

            lemma_insert_multiset(placed, at as int, s);
            assert(before.remove(0) =~= rest@);
            assert forall|place: u64| #[trigger]
                of_place(out@, place) + of_place(rest@, place) == of_place(all, place) by {
                let one = of_place(seq![s], place);
                lemma_insert_place(placed, at as int, s, place);
                assert(before =~= seq![s] + rest@);
                Seq::filter_distributes_over_add(seq![s], rest@, |s: Segment| s.index == place);
                assert(of_place(before, place) == one + of_place(rest@, place));
                assert(of_place(placed, place) + of_place(before, place) == of_place(all, place));
                assert((of_place(placed, place) + one) + of_place(rest@, place) =~= of_place(
                    placed,
                    place,
                ) + (one + of_place(rest@, place)));
            }
            assert(before.contains(before[0]));
            assert(out@.to_multiset().add(rest@.to_multiset()) =~= placed.to_multiset().add(
                before.to_multiset(),
            ));
        }
    }
    proof {
        broadcast use vstd::seq_lib::group_to_multiset_ensures;

        assert(rest@.to_multiset() =~= vstd::multiset::Multiset::empty());
        assert(out@.to_multiset() =~= all.to_multiset());
        reveal(Seq::filter);
        assert forall|place: u64| #[trigger]
            of_place(out@, place) == of_place(all, place) by {
            assert(of_place(out@, place) + of_place(rest@, place) =~= of_place(out@, place));
        }
    }
    out
}

/// Where no segment has the place, there are none of it.
proof fn lemma_none_of_place(v: Seq<Segment>, place: u64)
    requires
        forall|k: int| 0 <= k < v.len() ==> (#[trigger] v[k]).index != place,
    ensures
        of_place(v, place).len() == 0,
    decreases v.len(),
{
    reveal(Seq::filter);
    if v.len() > 0 {
        assert forall|k: int| 0 <= k < v.len() - 1 implies (#[trigger] v.drop_last()[k]).index
            != place by {
            assert(v[k].index != place);
        }
        lemma_none_of_place(v.drop_last(), place);
    }
}

/// A segment that is put in front of all later ones comes last of its place.
proof fn lemma_insert_place(v: Seq<Segment>, at: int, s: Segment, place: u64)
    requires
        0 <= at <= v.len(),
        forall|k: int| at <= k < v.len() ==> (#[trigger] v[k]).index > s.index,
    ensures
        of_place(v.insert(at, s), place) == of_place(v, place) + of_place(seq![s], place),
{
    let keep = |s: Segment| s.index == place;
    let front = v.take(at);
    let back = v.skip(at);
    assert(v =~= front + back);
    assert(v.insert(at, s) =~= (front + seq![s]) + back);
    Seq::filter_distributes_over_add(front, back, keep);
    Seq::filter_distributes_over_add(front, seq![s], keep);
    Seq::filter_distributes_over_add(front + seq![s], back, keep);
    if s.index == place {
        assert forall|k: int| 0 <= k < back.len() implies (#[trigger] back[k]).index != place by {
            assert(v[at + k].index > s.index);
        }
        lemma_none_of_place(back, place);
        assert(of_place(back, place) =~= Seq::empty());
        assert(of_place(v.insert(at, s), place) =~= of_place(v, place) + of_place(
            seq![s],
            place,
        ));
    } else {
        assert(seq![s][0].index != place);
        lemma_none_of_place(seq![s], place);
        assert(of_place(seq![s], place) =~= Seq::empty());
        assert(of_place(v.insert(at, s), place) =~= of_place(v, place) + of_place(
            seq![s],
            place,
        ));
    }
}

proof fn lemma_insert_multiset(v: Seq<Segment>, at: int, s: Segment)
    requires
        0 <= at <= v.len(),
    ensures
        v.insert(at, s).to_multiset() == v.to_multiset().insert(s),
{
    broadcast use vstd::seq_lib::group_to_multiset_ensures;

    let t = v.insert(at, s);
    assert(t.remove(at) =~= v);
    assert(t[at] == s);
    assert(t.contains(s));
    assert(t.to_multiset() =~= t.remove(at).to_multiset().insert(s));
}

/// The file that some segments make up, in the order in which they stand.
pub fn assemble(segments: &Vec<Segment>) -> (res: Vec<u8>)
    ensures
        res@ == joined(segments@),
{
    let mut out: Vec<u8> = Vec::new();
    let mut i: usize = 0;
    while i < segments.len()
        invariant
            i <= segments@.len(),
            out@ == joined(segments@.take(i as int)),
        decreases segments@.len() - i,
    {
        proof {
            assert(segments@.take(i + 1).drop_last() =~= segments@.take(i as int));
            assert(segments@.take(i + 1).last() == segments@[i as int]);
        }
        let mut k: usize = 0;
        let ghost before = out@;
        let ghost data = segments@[i as int].data@;
        while k < segments[i].data.len()
            invariant
                i < segments@.len(),
                data == segments@[i as int].data@,
                k <= data.len(),
                out@ == before + data.take(k as int),
            decreases data.len() - k,
        {
            out.push(segments[i].data[k]);
            proof {
                assert(out@ =~= before + data.take(k + 1));
            }
            k = k + 1;
        }
        proof {
            assert(data.take(k as int) =~= data);
        }
        i = i + 1;
    }
    proof {
        assert(segments@.take(i as int) =~= segments@);
    }
    out
}

/// What some segments make up is what each of them holds, one behind the other and nothing between.
pub proof fn law_segments_are_joined_in_order(a: Seq<Segment>, s: Segment, b: Seq<Segment>)
    ensures
        joined(Seq::<Segment>::empty()) == Seq::<u8>::empty(),
        joined(seq![s]) == s.data@,
        joined(a.push(s)) == joined(a) + s.data@,
        joined(a + b) == joined(a) + joined(b),
    decreases b.len(),
{
    assert(a.push(s).drop_last() =~= a);
    assert(seq![s].drop_last() =~= Seq::<Segment>::empty());
    assert(joined(Seq::<Segment>::empty()) =~= Seq::<u8>::empty());
    assert(joined(seq![s]) =~= s.data@);
    if b.len() > 0 {
        law_segments_are_joined_in_order(a, s, b.drop_last());
        assert((a + b).drop_last() =~= a + b.drop_last());
        assert(joined(a + b) =~= joined(a) + joined(b));
    } else {
        assert(a + b =~= a);
        assert(joined(a + b) =~= joined(a) + joined(b));
    }
}

/// Segments that stand in the order of the stream, each place once, make up one file, in whatever
/// order they were fetched: where two such lists hold the same segments they are the same list.
pub proof fn law_order_of_arrival_does_not_count(v: Seq<Segment>, w: Seq<Segment>)
    requires
        v.to_multiset() == w.to_multiset(),
        forall|i: int, j: int|
            0 <= i < j < v.len() ==> (#[trigger] v[i]).index < (#[trigger] v[j]).index,
        forall|i: int, j: int|
            0 <= i < j < w.len() ==> (#[trigger] w[i]).index < (#[trigger] w[j]).index,
    ensures
        v == w,
        joined(v) == joined(w),
    decreases v.len(),
{
    broadcast use vstd::seq_lib::group_to_multiset_ensures;

    assert(v.len() == v.to_multiset().len() && w.len() == w.to_multiset().len());
    if v.len() > 0 {
        let a = v.last();
        let b = w.last();
        assert(v.contains(a) && w.contains(b)) by {
            assert(v[v.len() - 1] == a);
            assert(w[w.len() - 1] == b);
        }
        assert(w.to_multiset().count(a) > 0 && v.to_multiset().count(b) > 0);
        assert(w.contains(a) && v.contains(b));
        let i = choose|i: int| 0 <= i < w.len() && w[i] == a;
        let j = choose|j: int| 0 <= j < v.len() && v[j] == b;
        if i < w.len() - 1 {
            assert(w[i].index < w[w.len() - 1].index);
            if j < v.len() - 1 {
                assert(v[j].index < v[v.len() - 1].index);
            }
        }
        assert(a == b);
        let d = v.drop_last();
        let e = w.drop_last();
        assert(v =~= d.push(a));
        assert(w =~= e.push(a));
        assert(d.to_multiset() =~= e.to_multiset()) by {
            assert(v.to_multiset() == d.to_multiset().insert(a));
            assert(w.to_multiset() == e.to_multiset().insert(a));
            assert(d.to_multiset() =~= v.to_multiset().remove(a));
            assert(e.to_multiset() =~= w.to_multiset().remove(a));
        }
        law_order_of_arrival_does_not_count(d, e);
    } else {
        assert(v =~= w);
    }
}

/// The segments that a resumed run takes as fetched are those that its snapshot lists, each once.
pub proof fn law_snapshot_segments_are_listed_once(list: Seq<u64>, n: u64)
    ensures
        distinct_numbers(list).no_duplicates(),
        distinct_numbers(list).contains(n) <==> list.contains(n),
    decreases list.len(),
{
    if list.len() > 0 {
        let d = list.drop_last();
        let r = distinct_numbers(d);
        law_snapshot_segments_are_listed_once(d, n);
        law_snapshot_segments_are_listed_once(d, list.last());
        assert(list.contains(n) <==> d.contains(n) || list.last() == n) by {
            if list.contains(n) {
                let k = choose|k: int| 0 <= k < list.len() && list[k] == n;
                if k < d.len() {
                    assert(d[k] == n);
                }
            }
            if d.contains(n) {
                let k = choose|k: int| 0 <= k < d.len() && d[k] == n;
                assert(list[k] == n);
            }
            if list.last() == n {
                assert(list[list.len() - 1] == n);
            }
        }
        let p = r.push(list.last());
        assert(p.contains(n) <==> r.contains(n) || list.last() == n) by {
            if p.contains(n) {
                let k = choose|k: int| 0 <= k < p.len() && p[k] == n;
                if k < r.len() {
                    assert(r[k] == n);
                }
            }
            if r.contains(n) {
                let k = choose|k: int| 0 <= k < r.len() && r[k] == n;
                assert(p[k] == n);
            }
            if list.last() == n {
                assert(p[p.len() - 1] == n);
            }
        }
    }
}

/// Where nothing is left to fetch or to wait for, every segment that the playlist names is there.
pub proof fn law_no_segment_is_left_out(r: StreamRun, i: u64)
    requires
        r.wf(),
        r.in_flight@.len() == 0,
        r.next >= r.segment_urls@.len(),
        i < r.segment_urls@.len(),
    ensures
        r.completed@.contains(i),
{
    assert(!r.in_flight@.contains(i));
}

/// The name of a part is the number of its segment, with zeros before it up to six digits.
pub proof fn law_part_names_have_six_digits(n: nat)
    ensures
        padded6(n).len() >= 6,
        number::decimal(n).len() <= 6 ==> padded6(n).len() == 6,
        ({
            let k = padded6(n).len() - number::decimal(n).len();
            &&& k >= 0
            &&& padded6(n).skip(k) == number::decimal(n)
            &&& forall|i: int| 0 <= i < k ==> padded6(n)[i] == '0'
        }),
{
    let d = number::decimal(n);
    let k = padded6(n).len() - d.len();
    assert(padded6(n).skip(k) =~= d);
}

} // verus!
