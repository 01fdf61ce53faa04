//! What was fetched from each host.

use crate::text;
use crate::types::opt_text;
use vstd::prelude::*;

verus! {

/// What was fetched from a host.
#[derive(Debug)]
pub struct HostMetrics {
    pub host: String,
    pub downloads: i64,
    pub bytes_total: i64,
    pub failures: i64,
}

/// The content of a `HostMetrics`.
pub struct HostView {
    pub host: Seq<char>,
    pub downloads: int,
    pub bytes_total: int,
    pub failures: int,
}

impl View for HostMetrics {
    type V = HostView;

    open spec fn view(&self) -> HostView {
        HostView {
            host: self.host@,
            downloads: self.downloads as int,
            bytes_total: self.bytes_total as int,
            failures: self.failures as int,
        }
    }
}

impl Clone for HostMetrics {
    fn clone(&self) -> (res: Self)
        ensures
            res@ == self@,
    {
        HostMetrics {
            host: self.host.clone(),
            downloads: self.downloads,
            bytes_total: self.bytes_total,
            failures: self.failures,
        }
    }
}

/// The host of a URL; nothing where the text is no URL or has no host.
pub uninterp spec fn url_host(url: Seq<char>) -> Option<Seq<char>>;

/// `Url::parse` reads a URL, and `Url::host_str` gives its host; what they give depends on the text
/// alone.
#[verifier::external_body]
fn host_of(url: &str) -> (res: Option<String>)
    ensures
        opt_text(res) == url_host(url@),
{
    url::Url::parse(url).ok().and_then(|u| u.host_str().map(str::to_string))
}

/// The name under which a host is counted.
pub open spec fn counted_host(host: Option<Seq<char>>) -> Seq<char> {
    match host {
        Some(h) => h,
        None => "unknown"@,
    }
}

/// What one download fetched from a host.
#[derive(Debug)]
pub struct MetricsRecorder {
    pub bytes: u64,
    pub host: String,
}

impl MetricsRecorder {
    /// Nothing was fetched yet, from the host of the URL.
    pub fn new(url: &str) -> (res: Self)
        ensures
            res.bytes == 0,
            res.host@ == counted_host(url_host(url@)),
    {
        Self::for_host(host_of(url))
    }

    /// Nothing was fetched yet, from the host.
    pub fn for_host(host: Option<String>) -> (res: Self)
        ensures
            res.bytes == 0,
            res.host@ == counted_host(opt_text(host)),
            host matches Some(h) ==> res.host@ == h@,
            host is None ==> res.host@ == "unknown"@,
    {
        match host {
            Some(h) => MetricsRecorder { bytes: 0, host: h },
            None => MetricsRecorder { bytes: 0, host: "unknown".to_owned() },
        }
    }

    /// Counts some bytes.
    pub fn add_bytes(&mut self, n: u64)
        requires
            old(self).bytes + n <= u64::MAX,
        ensures
            final(self).bytes == old(self).bytes + n,
            final(self).host == old(self).host,
    {
        self.bytes = self.bytes + n;
    }

    /// Counts the download as one that came through.
    pub fn finish_success(self, table: &mut HostTable)
        requires
            old(table).wf(),
            old(table).can_count(self.host@, self.bytes),
        ensures
            final(table).wf(),
            final(table)@ == counted(old(table)@, self.host@, self.bytes as int, 0),
    {
        table.record(self.host, self.bytes, false);
    }

    /// Counts the download as one that failed.
    pub fn finish_failure(self, table: &mut HostTable)
        requires
            old(table).wf(),
            old(table).can_count(self.host@, self.bytes),
        ensures
            final(table).wf(),
            final(table)@ == counted(old(table)@, self.host@, self.bytes as int, 1),
    {
        table.record(self.host, self.bytes, true);
    }
}

/// What was fetched from each host.
#[derive(Debug)]
pub struct HostTable {
    /// The hosts in the order in which they came up; none occurs twice.
    pub rows: Vec<HostMetrics>,
}

/// What was fetched from some hosts.
pub open spec fn host_views(v: Seq<HostMetrics>) -> Seq<HostView> {
    v.map_values(|m: HostMetrics| m@)
}

impl View for HostTable {
    type V = Seq<HostView>;

    open spec fn view(&self) -> Seq<HostView> {
        host_views(self.rows@)
    }
}

/// No host occurs twice.
pub open spec fn distinct_hosts(v: Seq<HostView>) -> bool {
    forall|i: int, j: int| 0 <= i < j < v.len() ==> (#[trigger] v[i]).host != (#[trigger] v[j]).host
}

/// The host stands at that place.
pub open spec fn host_at(v: Seq<HostView>, host: Seq<char>, k: int) -> bool {
    0 <= k < v.len() && v[k].host == host
}

/// The host was counted before.
pub open spec fn has_host(v: Seq<HostView>, host: Seq<char>) -> bool {
    exists|k: int| host_at(v, host, k)
}

/// Where the host stands.
pub open spec fn host_place(v: Seq<HostView>, host: Seq<char>) -> int {
    choose|k: int| host_at(v, host, k)
}

/// The table after one more download from a host.
pub open spec fn counted(v: Seq<HostView>, host: Seq<char>, bytes: int, failures: int) -> Seq<
    HostView,
> {
    if has_host(v, host) {
        let k = host_place(v, host);
        v.update(
            k,
            HostView {
                host,
                downloads: v[k].downloads + 1,
                bytes_total: v[k].bytes_total + bytes,
                failures: v[k].failures + failures,
            },
        )
    } else {
        v.push(HostView { host, downloads: 1, bytes_total: bytes, failures })
    }
}

/// How many downloads were counted.
pub open spec fn download_sum(v: Seq<HostView>) -> int
    decreases v.len(),
{
    if v.len() == 0 {
        0
    } else {
        download_sum(v.drop_last()) + v.last().downloads
    }
}

/// How many bytes were counted.
pub open spec fn byte_sum(v: Seq<HostView>) -> int
    decreases v.len(),
{
    if v.len() == 0 {
        0
    } else {
        byte_sum(v.drop_last()) + v.last().bytes_total
    }
}

/// How many failures were counted.
pub open spec fn failure_sum(v: Seq<HostView>) -> int
    decreases v.len(),
{
    if v.len() == 0 {
        0
    } else {
        failure_sum(v.drop_last()) + v.last().failures
    }
}

impl HostTable {
    /// No host occurs twice.
    pub open spec fn wf(self) -> bool {
        distinct_hosts(self@)
    }

    /// The counters of the host have room for one more download of that many bytes.
    pub open spec fn can_count(self, host: Seq<char>, bytes: u64) -> bool {
        &&& bytes <= i64::MAX
        &&& forall|k: int|
            host_at(self@, host, k) ==> (#[trigger] self@[k]).downloads < i64::MAX
                && self@[k].bytes_total + bytes <= i64::MAX && self@[k].failures < i64::MAX
    }

    /// No hosts.
    pub fn new() -> (res: Self)
        ensures
            res.wf(),
            res@.len() == 0,
    {
        HostTable { rows: Vec::new() }
    }

    /// Counts one more download from a host.
    pub fn record(&mut self, host: String, bytes: u64, failed: bool)
        requires
            old(self).wf(),
            old(self).can_count(host@, bytes),
        ensures
            final(self).wf(),
            final(self)@ == counted(
                old(self)@,
                host@,
                bytes as int,
                if failed {
                    1
                } else {
                    0
                },
            ),
    {
        let failure: i64 = if failed {
            1
        } else {
            0
        };
        let ghost v = self@;
        let mut i: usize = 0;
        while i < self.rows.len()
            invariant
                i <= self.rows@.len(),
                *self == *old(self),
                v == self@,
                self.wf(),
                self.can_count(host@, bytes),
                failure == if failed {
                    1int
                } else {
                    0
                },
                forall|j: int| 0 <= j < i ==> (#[trigger] v[j]).host != host@,
            decreases self.rows@.len() - i,
        {
            assert(v[i as int] == self.rows@[i as int]@);
            if text::eq(self.rows[i].host.as_str(), host.as_str()) {
                proof {
                    assert(host_at(v, host@, i as int));
                    let m = host_place(v, host@);
                    assert(host_at(v, host@, m));
                    assert(m == i) by {
                        if m < i {
                            assert(v[m].host != v[i as int].host);
                        } else if i < m {
                            assert(v[i as int].host != v[m].host);
                        }
                    }
                }
                let row = HostMetrics {
                    host: self.rows[i].host.clone(),
                    downloads: self.rows[i].downloads + 1,
                    bytes_total: self.rows[i].bytes_total + bytes as i64,
                    failures: self.rows[i].failures + failure,
                };
                self.rows.set(i, row);
                proof {
                    let w = self@;
                    assert(w =~= v.update(i as int, row@));
                    assert forall|a: int, b: int| 0 <= a < b < w.len() implies (
                    #[trigger] w[a]).host != (#[trigger] w[b]).host by {
                        assert(v[a].host != v[b].host);
                    }
                }
                return ;
            }
            i = i + 1;
        }
        self.rows.push(
            HostMetrics { host, downloads: 1, bytes_total: bytes as i64, failures: failure },
        );
        proof {
            let w = self@;
            assert(w =~= v.push(
                HostView {
                    host: host@,
                    downloads: 1,
                    bytes_total: bytes as int,
                    failures: failure as int,
                },
            ));
            assert(!has_host(v, host@));
            assert forall|a: int, b: int| 0 <= a < b < w.len() implies (#[trigger] w[a]).host != (
            #[trigger] w[b]).host by {
                assert(w[a] == v[a]);
                if b < v.len() {
                    assert(w[b] == v[b]);
                    assert(v[a].host != v[b].host);
                }
            }
        }
    }
}

/// The rows go down in bytes.
pub open spec fn by_bytes(v: Seq<HostView>) -> bool {
    forall|i: int, j: int|
        0 <= i < j < v.len() ==> (#[trigger] v[i]).bytes_total >= (#[trigger] v[j]).bytes_total
}

/// The place where a row goes among rows that go down in bytes: before the first that has fewer.
fn slot(out: &Vec<HostMetrics>, bytes: i64) -> (res: usize)
    requires
        by_bytes(host_views(out@)),
    ensures
        res <= out@.len(),
        forall|j: int| 0 <= j < res ==> (#[trigger] out@[j]).bytes_total >= bytes,
        forall|j: int| res <= j < out@.len() ==> (#[trigger] out@[j]).bytes_total <= bytes,
{
    let mut i: usize = 0;
    while i < out.len() && out[i].bytes_total >= bytes
        invariant
            i <= out@.len(),
            forall|j: int| 0 <= j < i ==> (#[trigger] out@[j]).bytes_total >= bytes,
        decreases out@.len() - i,
    {
        i = i + 1;
    }
    proof {
        let v = host_views(out@);
        assert forall|j: int| i <= j < out@.len() implies (#[trigger] out@[j]).bytes_total
            <= bytes by {
            assert(v[i as int] == out@[i as int]@ && v[j] == out@[j]@);
            if i < j {
                assert(v[i as int].bytes_total >= v[j].bytes_total);
            }
        }
    }
    i
}

/// The hosts, those from which most bytes came first.
pub fn list_host_metrics(table: &HostTable) -> (res: Vec<HostMetrics>)
    ensures
        host_views(res@).to_multiset() == table@.to_multiset(),
        by_bytes(host_views(res@)),
{
    let ghost all = table@;
    let mut out: Vec<HostMetrics> = Vec::new();
    let mut i: usize = 0;
    proof {
        assert(host_views(out@) =~= all.take(0));
    }
    while i < table.rows.len()
        invariant
            i <= table.rows@.len(),
            all == table@,
            by_bytes(host_views(out@)),
            host_views(out@).to_multiset() == all.take(i as int).to_multiset(),
        decreases table.rows@.len() - i,
    {
        let row = table.rows[i].clone();
        let at = slot(&out, row.bytes_total);
        let ghost before = host_views(out@);
        let ghost b = out@;
        out.insert(at, row);
        proof {
            broadcast use vstd::seq_lib::group_to_multiset_ensures;

            let after = host_views(out@);
            assert(after =~= before.insert(at as int, row@));
            assert(all[i as int] == row@);
            before.insert_ensures(at as int, row@);
            assert(all.take(i + 1) =~= all.take(i as int).push(row@));
            assert(all.take(i as int).push(row@).to_multiset() =~= all.take(
                i as int,
            ).to_multiset().insert(row@));
            assert(after.to_multiset() =~= before.to_multiset().insert(row@));
            assert forall|j: int| 0 <= j < before.len() implies before[j] == (#[trigger] b[j])@ by {
            }
            assert forall|x: int, y: int| 0 <= x < y < after.len() implies (
            #[trigger] after[x]).bytes_total >= (#[trigger] after[y]).bytes_total by {
                let p = if x < at {
                    x
                } else {
                    x - 1
                };
                let q = if y < at {
                    y
                } else {
                    y - 1
                };
                if x != at && y != at {
                    assert(after[x] == before[p] && after[y] == before[q]);
                    assert(before[p].bytes_total >= before[q].bytes_total);
                } else if x == at {
                    assert(after[y] == before[q]);
                    assert(b[q].bytes_total <= row.bytes_total);
                } else {
                    assert(after[x] == before[p]);
                    assert(b[p].bytes_total >= row.bytes_total);
                }
            }
        }
        i = i + 1;
    }
    proof {
        assert(all.take(i as int) =~= all);
    }
    out
}

proof fn lemma_sums_update(v: Seq<HostView>, k: int, x: HostView)
    requires
        0 <= k < v.len(),
    ensures
        download_sum(v.update(k, x)) == download_sum(v) - v[k].downloads + x.downloads,
        byte_sum(v.update(k, x)) == byte_sum(v) - v[k].bytes_total + x.bytes_total,
        failure_sum(v.update(k, x)) == failure_sum(v) - v[k].failures + x.failures,
    decreases v.len(),
{
    let u = v.update(k, x);
    if k == v.len() - 1 {
        assert(u.drop_last() =~= v.drop_last());
    } else {
        lemma_sums_update(v.drop_last(), k, x);
        assert(u.drop_last() =~= v.drop_last().update(k, x));
        assert(u.last() == v.last());
    }
}

/// Every download, its bytes and its failure are counted once, and for its host alone.
pub proof fn law_every_download_is_counted(
    v: Seq<HostView>,
    host: Seq<char>,
    bytes: int,
    failures: int,
)
    ensures
        download_sum(counted(v, host, bytes, failures)) == download_sum(v) + 1,
        byte_sum(counted(v, host, bytes, failures)) == byte_sum(v) + bytes,
        failure_sum(counted(v, host, bytes, failures)) == failure_sum(v) + failures,
        forall|i: int|
            0 <= i < v.len() && (#[trigger] v[i]).host != host ==> counted(
                v,
                host,
                bytes,
                failures,
            )[i] == v[i],
{
    if has_host(v, host) {
        let k = host_place(v, host);
        assert(host_at(v, host, k));
        lemma_sums_update(
            v,
            k,
            HostView {
                host,
                downloads: v[k].downloads + 1,
                bytes_total: v[k].bytes_total + bytes,
                failures: v[k].failures + failures,
            },
        );
    } else {
        let u = counted(v, host, bytes, failures);
        assert(u.drop_last() =~= v);
    }
}

} // verus!
