//! Captured requests, filters and the capture configuration.

use crate::text;
use crate::types::{copy_opt, opt_text};
use vstd::prelude::*;

verus! {

/// The header fields of a request: a name has one value, the last that was set.
#[derive(Debug)]
pub struct Headers {
    /// Names and values; no name occurs twice.
    pub fields: Vec<(String, String)>,
}

/// The fields as a map from name to value.
pub open spec fn field_map(fields: Seq<(String, String)>) -> Map<Seq<char>, Seq<char>>
    decreases fields.len(),
{
    if fields.len() == 0 {
        Map::empty()
    } else {
        field_map(fields.drop_last()).insert(fields.last().0@, fields.last().1@)
    }
}

impl View for Headers {
    type V = Map<Seq<char>, Seq<char>>;

    open spec fn view(&self) -> Map<Seq<char>, Seq<char>> {
        field_map(self.fields@)
    }
}

proof fn lemma_field_update(fields: Seq<(String, String)>, k: int, pair: (String, String))
    requires
        0 <= k < fields.len(),
        fields[k].0@ == pair.0@,
        distinct(fields),
    ensures
        field_map(fields.update(k, pair)) == field_map(fields).insert(pair.0@, pair.1@),
        distinct(fields.update(k, pair)),
    decreases fields.len(),
{
    let u = fields.update(k, pair);
    assert(distinct(u)) by {
        assert forall|i: int, j: int| 0 <= i < j < u.len() implies (#[trigger] u[i]).0@ != (
        #[trigger] u[j]).0@ by {
            assert(fields[i].0@ != fields[j].0@);
        }
    }
    if k == fields.len() - 1 {
        assert(u.drop_last() =~= fields.drop_last());
        assert(field_map(u) =~= field_map(fields).insert(pair.0@, pair.1@));
    } else {
        let d = fields.drop_last();
        assert(u.drop_last() =~= d.update(k, pair));
        assert(distinct(d)) by {
            assert forall|i: int, j: int| 0 <= i < j < d.len() implies (#[trigger] d[i]).0@ != (
            #[trigger] d[j]).0@ by {
                assert(fields[i].0@ != fields[j].0@);
            }
        }
        lemma_field_update(d, k, pair);
        assert(fields[k].0@ != fields[fields.len() - 1].0@);
        assert(field_map(u) =~= field_map(fields).insert(pair.0@, pair.1@));
    }
}

/// No name occurs twice.
pub open spec fn distinct(fields: Seq<(String, String)>) -> bool {
    forall|i: int, j: int|
        0 <= i < j < fields.len() ==> (#[trigger] fields[i]).0@ != (#[trigger] fields[j]).0@
}

impl Headers {
    /// No name occurs twice.
    pub open spec fn wf(self) -> bool {
        distinct(self.fields@)
    }

    /// No fields.
    pub fn new() -> (res: Self)
        ensures
            res.wf(),
            res@ == Map::<Seq<char>, Seq<char>>::empty(),
    {
        Headers { fields: Vec::new() }
    }

    /// Sets the value of a name; a value that it had is replaced.
    pub fn insert(&mut self, name: String, value: String)
        requires
            old(self).wf(),
        ensures
            final(self).wf(),
            final(self)@ == old(self)@.insert(name@, value@),
    {
        let mut i: usize = 0;
        while i < self.fields.len()
            invariant
                i <= self.fields@.len(),
                self.wf(),
                *self == *old(self),
                forall|k: int| 0 <= k < i ==> (#[trigger] self.fields@[k]).0@ != name@,
            decreases self.fields@.len() - i,
        {
            if text::eq(self.fields[i].0.as_str(), name.as_str()) {
                proof {
                    lemma_field_update(self.fields@, i as int, (name, value));
                }
                self.fields.set(i, (name, value));
                return;
            }
            i = i + 1;
        }
        self.fields.push((name, value));
        proof {
            assert(self.fields@.drop_last() =~= old(self).fields@);
        }
    }
}

impl Clone for Headers {
    fn clone(&self) -> (res: Self)
        ensures
            res@ == self@,
            self.wf() ==> res.wf(),
    {
        let mut out: Vec<(String, String)> = Vec::new();
        let mut i: usize = 0;
        while i < self.fields.len()
            invariant
                i <= self.fields@.len(),
                out@.len() == i,
                forall|k: int|
                    0 <= k < i ==> (#[trigger] out@[k]).0@ == self.fields@[k].0@ && out@[k].1@
                        == self.fields@[k].1@,
            decreases self.fields@.len() - i,
        {
            out.push((self.fields[i].0.clone(), self.fields[i].1.clone()));
            i = i + 1;
        }
        proof {
            lemma_same_fields(out@, self.fields@);
            if self.wf() {
                assert forall|i: int, j: int| 0 <= i < j < out@.len() implies (
                #[trigger] out@[i]).0@ != (#[trigger] out@[j]).0@ by {
                    assert(self.fields@[i].0@ != self.fields@[j].0@);
                }
            }
        }
        Headers { fields: out }
    }
}

proof fn lemma_same_fields(a: Seq<(String, String)>, b: Seq<(String, String)>)
    requires
        a.len() == b.len(),
        forall|k: int| 0 <= k < a.len() ==> (#[trigger] a[k]).0@ == b[k].0@ && a[k].1@ == b[k].1@,
    ensures
        field_map(a) == field_map(b),
    decreases a.len(),
{
    if a.len() > 0 {
        assert(a.last() == a[a.len() - 1]);
        assert forall|k: int| 0 <= k < a.drop_last().len() implies (
        #[trigger] a.drop_last()[k]).0@ == b.drop_last()[k].0@ && a.drop_last()[k].1@
            == b.drop_last()[k].1@ by {
            assert(a.drop_last()[k] == a[k]);
        }
        lemma_same_fields(a.drop_last(), b.drop_last());
    }
}

/// A captured network request.
#[derive(Debug)]
pub struct CapturedRequest {
    pub id: String,
    pub timestamp: u64,
    pub source_ip: String,
    pub destination_ip: String,
    pub source_port: u16,
    pub destination_port: u16,
    pub protocol: String,
    pub method: Option<String>,
    pub url: Option<String>,
    pub host: Option<String>,
    pub user_agent: Option<String>,
    pub content_type: Option<String>,
    pub content_length: Option<u64>,
    pub headers: Headers,
    pub payload_size: usize,
}

/// The content of a `CapturedRequest`.
pub struct RequestView {
    pub id: Seq<char>,
    pub timestamp: u64,
    pub source_ip: Seq<char>,
    pub destination_ip: Seq<char>,
    pub source_port: u16,
    pub destination_port: u16,
    pub protocol: Seq<char>,
    pub method: Option<Seq<char>>,
    pub url: Option<Seq<char>>,
    pub host: Option<Seq<char>>,
    pub user_agent: Option<Seq<char>>,
    pub content_type: Option<Seq<char>>,
    pub content_length: Option<u64>,
    pub headers: Map<Seq<char>, Seq<char>>,
    pub payload_size: usize,
}

impl View for CapturedRequest {
    type V = RequestView;

    open spec fn view(&self) -> RequestView {
        RequestView {
            id: self.id@,
            timestamp: self.timestamp,
            source_ip: self.source_ip@,
            destination_ip: self.destination_ip@,
            source_port: self.source_port,
            destination_port: self.destination_port,
            protocol: self.protocol@,
            method: opt_text(self.method),
            url: opt_text(self.url),
            host: opt_text(self.host),
            user_agent: opt_text(self.user_agent),
            content_type: opt_text(self.content_type),
            content_length: self.content_length,
            headers: self.headers@,
            payload_size: self.payload_size,
        }
    }
}

impl Clone for CapturedRequest {
    fn clone(&self) -> (res: Self)
        ensures
            res@ == self@,
    {
        CapturedRequest {
            id: self.id.clone(),
            timestamp: self.timestamp,
            source_ip: self.source_ip.clone(),
            destination_ip: self.destination_ip.clone(),
            source_port: self.source_port,
            destination_port: self.destination_port,
            protocol: self.protocol.clone(),
            method: copy_opt(&self.method),
            url: copy_opt(&self.url),
            host: copy_opt(&self.host),
            user_agent: copy_opt(&self.user_agent),
            content_type: copy_opt(&self.content_type),
            content_length: self.content_length,
            headers: self.headers.clone(),
            payload_size: self.payload_size,
        }
    }
}

/// What a captured request must look like to be kept.
#[derive(Debug)]
pub struct RequestFilter {
    /// The host holds this text.
    pub domain: Option<String>,
    /// The method is this one.
    pub method: Option<String>,
    /// The content type holds this text.
    pub content_type: Option<String>,
    /// The URL matches this regular expression.
    pub url_regex: Option<String>,
    /// The content type matches this regular expression.
    pub content_type_regex: Option<String>,
    /// The payload is at least so long.
    pub min_size: Option<usize>,
    /// The payload is at most so long.
    pub max_size: Option<usize>,
}

/// The content of a `RequestFilter`.
pub struct FilterView {
    pub domain: Option<Seq<char>>,
    pub method: Option<Seq<char>>,
    pub content_type: Option<Seq<char>>,
    pub url_regex: Option<Seq<char>>,
    pub content_type_regex: Option<Seq<char>>,
    pub min_size: Option<usize>,
    pub max_size: Option<usize>,
}

impl View for RequestFilter {
    type V = FilterView;

    open spec fn view(&self) -> FilterView {
        FilterView {
            domain: opt_text(self.domain),
            method: opt_text(self.method),
            content_type: opt_text(self.content_type),
            url_regex: opt_text(self.url_regex),
            content_type_regex: opt_text(self.content_type_regex),
            min_size: self.min_size,
            max_size: self.max_size,
        }
    }
}

/// A filter that keeps everything.
pub open spec fn no_filter() -> FilterView {
    FilterView {
        domain: None,
        method: None,
        content_type: None,
        url_regex: None,
        content_type_regex: None,
        min_size: None,
        max_size: None,
    }
}

impl Default for RequestFilter {
    fn default() -> (res: Self)
        ensures
            res@ == no_filter(),
    {
        RequestFilter {
            domain: None,
            method: None,
            content_type: None,
            url_regex: None,
            content_type_regex: None,
            min_size: None,
            max_size: None,
        }
    }
}

impl Clone for RequestFilter {
    fn clone(&self) -> (res: Self)
        ensures
            res@ == self@,
    {
        RequestFilter {
            domain: copy_opt(&self.domain),
            method: copy_opt(&self.method),
            content_type: copy_opt(&self.content_type),
            url_regex: copy_opt(&self.url_regex),
            content_type_regex: copy_opt(&self.content_type_regex),
            min_size: self.min_size,
            max_size: self.max_size,
        }
    }
}

/// How packets are captured.
#[derive(Debug)]
pub struct InterceptorConfig {
    /// The interface; the default one where none is named.
    pub interface_name: Option<String>,
    pub promiscuous: bool,
    /// How many bytes of a packet are captured.
    pub snaplen: i32,
    /// How long a read waits, in milliseconds.
    pub timeout: i32,
    /// How many requests are kept.
    pub buffer_size: usize,
}

impl Default for InterceptorConfig {
    fn default() -> (res: Self)
        ensures
            res.interface_name is None,
            res.promiscuous,
            res.snaplen == 65535,
            res.timeout == 1000,
            res.buffer_size == 10000,
    {
        InterceptorConfig {
            interface_name: None,
            promiscuous: true,
            snaplen: 65535,
            timeout: 1000,
            buffer_size: 10000,
        }
    }
}

impl Clone for InterceptorConfig {
    fn clone(&self) -> (res: Self)
        ensures
            opt_text(res.interface_name) == opt_text(self.interface_name),
            res.promiscuous == self.promiscuous,
            res.snaplen == self.snaplen,
            res.timeout == self.timeout,
            res.buffer_size == self.buffer_size,
    {
        InterceptorConfig {
            interface_name: copy_opt(&self.interface_name),
            promiscuous: self.promiscuous,
            snaplen: self.snaplen,
            timeout: self.timeout,
            buffer_size: self.buffer_size,
        }
    }
}

/// A name has the last value that was set for it, and no name has a value that was not set.
pub proof fn law_the_last_value_holds(fields: Seq<(String, String)>, k: int, name: Seq<char>)
    requires
        0 <= k < fields.len(),
    ensures
        (forall|j: int| k < j < fields.len() ==> (#[trigger] fields[j]).0@ != fields[k].0@) ==> (
        field_map(fields).contains_key(fields[k].0@) && field_map(fields)[fields[k].0@]
            == fields[k].1@),
        field_map(fields).contains_key(name) ==> exists|j: int|
            0 <= j < fields.len() && (#[trigger] fields[j]).0@ == name,
    decreases fields.len(),
{
    let d = fields.drop_last();
    let n = fields.len() - 1;
    if n > 0 {
        let m = if k < n {
            k
        } else {
            0
        };
        law_the_last_value_holds(d, m, name);
        if k < n {
            assert(fields[k] == d[k]);
            if forall|j: int| k < j < fields.len() ==> (#[trigger] fields[j]).0@ != fields[k].0@ {
                assert forall|j: int| k < j < d.len() implies (#[trigger] d[j]).0@ != d[k].0@ by {
                    assert(d[j] == fields[j]);
                }
                assert(fields[n].0@ != fields[k].0@);
            }
        }
    } else {
        assert(field_map(d) == Map::<Seq<char>, Seq<char>>::empty());
    }
    if field_map(fields).contains_key(name) {
        if fields[n].0@ != name {
            assert(field_map(d).contains_key(name));
            let j = choose|j: int| 0 <= j < d.len() && (#[trigger] d[j]).0@ == name;
            assert(fields[j] == d[j]);
        }
    }
}

} // verus!
