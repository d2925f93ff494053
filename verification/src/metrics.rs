//! Counters and histograms that observable wrappers record, with a
//! prefixing backend and an in-memory one.

use vstd::prelude::*;

use crate::keyed::find_key;
use crate::keyed::keyed_map;
use crate::keyed::keys_distinct;
use crate::keyed::lemma_keyed_push;
use crate::keyed::lemma_keyed_update;
use crate::text::append_str;

verus! {

/// The kind of a metric.
#[derive(Clone, Copy, Debug, PartialEq, Eq, Structural)]
pub enum MetricKind {
    Counter,
    Histogram,
}

/// One metric handed to a backend: its kind, key, value and tags.
pub type MetricRecord = (MetricKind, Seq<char>, i64, Seq<(Seq<char>, Seq<char>)>);

/// The views of a list of tags.
pub open spec fn tag_views(tags: Seq<(&str, &str)>) -> Seq<(Seq<char>, Seq<char>)> {
    tags.map_values(|t: (&str, &str)| (t.0@, t.1@))
}

/// The record of one call on a backend.
pub open spec fn metric_record(kind: MetricKind, key: Seq<char>, value: i64, tags: Seq<(&str, &str)>) -> MetricRecord {
    (kind, key, value, tag_views(tags))
}

/// A metrics backend.
pub trait AgentBusMetrics {
    /// The metrics handed to this backend, in order.
    closed spec fn recorded(&self) -> Seq<MetricRecord> {
        Seq::empty()
    }

    /// Add `value` to a counter.
    fn record_counter(&mut self, key: &str, value: i64, tags: &[(&str, &str)])
        ensures
            final(self).recorded() == old(self).recorded().push(metric_record(MetricKind::Counter, key@, value, tags@)),
    ;

    /// Record a value in a histogram.
    fn record_histogram(&mut self, key: &str, value: i64, tags: &[(&str, &str)])
        ensures
            final(self).recorded() == old(self).recorded().push(metric_record(MetricKind::Histogram, key@, value, tags@)),
    ;
}

/// The key under a prefix: `prefix.key`, or the key itself for an empty
/// prefix.
pub open spec fn prefixed_key(prefix: Seq<char>, key: Seq<char>) -> Seq<char> {
    if prefix.len() == 0 {
        key
    } else {
        prefix + seq!['.'] + key
    }
}

/// A backend that prefixes every metric key before forwarding it.
pub struct PrefixedMetrics<M> {
    prefix: String,
    inner: M,
    calls: Ghost<Seq<MetricRecord>>,
}

impl<M> PrefixedMetrics<M> {
    /// The prefix of this backend.
    pub closed spec fn spec_prefix(&self) -> Seq<char> {
        self.prefix@
    }

    /// The backend that receives the metrics.
    pub closed spec fn spec_inner(&self) -> M {
        self.inner
    }

    /// The metrics handed to this backend, before prefixing.
    pub closed spec fn spec_calls(&self) -> Seq<MetricRecord> {
        self.calls@
    }

    /// A backend that prepends `prefix` to every key sent to `inner`.
    pub fn new(prefix: &str, inner: M) -> (m: Self)
        ensures
            m.spec_prefix() == prefix@,
            m.spec_inner() == inner,
            m.spec_calls().len() == 0,
    {
        let mut p = String::new();
        append_str(&mut p, prefix);
        PrefixedMetrics { prefix: p, inner, calls: Ghost(Seq::empty()) }
    }

    /// The backend that receives the metrics.
    pub fn inner(&self) -> (r: &M)
        ensures
            *r == self.spec_inner(),
    {
        &self.inner
    }

    /// The prefixed form of a key.
    pub fn key(&self, key: &str) -> (r: String)
        ensures
            r@ == prefixed_key(self.spec_prefix(), key@),
    {
        let mut r = String::new();
        if self.prefix.unicode_len() == 0 {
            append_str(&mut r, key);
            return r;
        }
        append_str(&mut r, self.prefix.as_str());
        append_str(&mut r, ".");
        append_str(&mut r, key);
        proof {
            reveal_strlit(".");
        }
        assert(r@ =~= prefixed_key(self.spec_prefix(), key@));
        r
    }
}

impl<M: AgentBusMetrics> AgentBusMetrics for PrefixedMetrics<M> {
    closed spec fn recorded(&self) -> Seq<MetricRecord> {
        self.calls@
    }

    /// The inner backend receives the counter under the prefixed key, with
    /// the same value and tags.
    fn record_counter(&mut self, key: &str, value: i64, tags: &[(&str, &str)])
        ensures
            final(self).spec_prefix() == old(self).spec_prefix(),
            final(self).spec_inner().recorded() == old(self).spec_inner().recorded().push(
                metric_record(MetricKind::Counter, prefixed_key(old(self).spec_prefix(), key@), value, tags@),
            ),
    {
        let k = self.key(key);
        self.inner.record_counter(k.as_str(), value, tags);
        self.calls = Ghost(self.calls@.push(metric_record(MetricKind::Counter, key@, value, tags@)));
    }

    /// The inner backend receives the histogram value under the prefixed
    /// key, with the same tags.
    fn record_histogram(&mut self, key: &str, value: i64, tags: &[(&str, &str)])
        ensures
            final(self).spec_prefix() == old(self).spec_prefix(),
            final(self).spec_inner().recorded() == old(self).spec_inner().recorded().push(
                metric_record(MetricKind::Histogram, prefixed_key(old(self).spec_prefix(), key@), value, tags@),
            ),
    {
        let k = self.key(key);
        self.inner.record_histogram(k.as_str(), value, tags);
        self.calls = Ghost(self.calls@.push(metric_record(MetricKind::Histogram, key@, value, tags@)));
    }
}

/// The value of a counter in a map of counters, 0 when absent.
pub open spec fn counter_value(m: Map<Seq<char>, i64>, key: Seq<char>) -> i64 {
    if m.contains_key(key) {
        m[key]
    } else {
        0
    }
}

/// The values of a histogram in a map of histograms, empty when absent.
pub open spec fn histogram_value(m: Map<Seq<char>, Seq<i64>>, key: Seq<char>) -> Seq<i64> {
    if m.contains_key(key) {
        m[key]
    } else {
        Seq::empty()
    }
}

/// The sum of the counter values recorded under `key`, wrapping at the ends
/// of the 64-bit range.
pub open spec fn counter_total(calls: Seq<MetricRecord>, key: Seq<char>) -> i64
    decreases calls.len(),
{
    if calls.len() == 0 {
        0
    } else {
        let prev = counter_total(calls.drop_last(), key);
        let c = calls.last();
        if c.0 == MetricKind::Counter && c.1 == key {
            prev.wrapping_add(c.2)
        } else {
            prev
        }
    }
}

/// The histogram values recorded under `key`, in call order.
pub open spec fn histogram_list(calls: Seq<MetricRecord>, key: Seq<char>) -> Seq<i64>
    decreases calls.len(),
{
    if calls.len() == 0 {
        Seq::empty()
    } else {
        let prev = histogram_list(calls.drop_last(), key);
        let c = calls.last();
        if c.0 == MetricKind::Histogram && c.1 == key {
            prev.push(c.2)
        } else {
            prev
        }
    }
}

/// Records all metrics in memory: each counter is the sum of the values
/// recorded under its key, each histogram the list of its values. Tags are
/// not kept.
pub struct InMemoryMetrics {
    counters: Vec<(String, i64)>,
    histograms: Vec<(String, Vec<i64>)>,
    calls: Ghost<Seq<MetricRecord>>,
}

impl InMemoryMetrics {
    /// The value of each counter recorded.
    pub closed spec fn counters(&self) -> Map<Seq<char>, i64> {
        keyed_map(self.counters@)
    }

    /// The values recorded in each histogram, in order.
    pub closed spec fn histograms(&self) -> Map<Seq<char>, Seq<i64>> {
        keyed_map(self.histograms@).map_values(|v: Vec<i64>| v@)
    }

    /// The metrics handed to this backend, in order.
    pub closed spec fn calls(&self) -> Seq<MetricRecord> {
        self.calls@
    }

    #[verifier::type_invariant]
    spec fn wf(&self) -> bool {
        &&& keys_distinct(self.counters@)
        &&& keys_distinct(self.histograms@)
        &&& forall|k: Seq<char>| #[trigger] counter_value(self.counters(), k) == counter_total(self.calls@, k)
        &&& forall|k: Seq<char>| #[trigger] histogram_value(self.histograms(), k) == histogram_list(self.calls@, k)
    }

    pub fn new() -> (m: Self)
        ensures
            m.counters() == Map::<Seq<char>, i64>::empty(),
            m.histograms() == Map::<Seq<char>, Seq<i64>>::empty(),
            m.calls().len() == 0,
    {
        let m = InMemoryMetrics { counters: Vec::new(), histograms: Vec::new(), calls: Ghost(Seq::empty()) };
        assert(m.counters() =~= Map::<Seq<char>, i64>::empty());
        assert(m.histograms() =~= Map::<Seq<char>, Seq<i64>>::empty());
        m
    }

    /// The value of a counter: the sum of the values recorded under it, 0
    /// when never recorded.
    pub fn counter(&self, key: &str) -> (n: i64)
        ensures
            n == counter_value(self.counters(), key@),
            n == counter_total(self.calls(), key@),
    {
        proof {
            use_type_invariant(self);
            assert(counter_value(self.counters(), key@) == counter_total(self.calls@, key@));
        }
        match find_key(&self.counters, key) {
            Some(i) => self.counters[i].1,
            None => 0,
        }
    }

    /// The values of a histogram in recording order, empty when never
    /// recorded.
    pub fn histogram(&self, key: &str) -> (v: Vec<i64>)
        ensures
            v@ == histogram_value(self.histograms(), key@),
            v@ == histogram_list(self.calls(), key@),
    {
        proof {
            use_type_invariant(self);
            assert(histogram_value(self.histograms(), key@) == histogram_list(self.calls@, key@));
        }
        match find_key(&self.histograms, key) {
            Some(i) => {
                let src = &self.histograms[i].1;
                let mut out: Vec<i64> = Vec::new();
                let mut j: usize = 0;
                while j < src.len()
                    invariant
                        j <= src@.len(),
                        out@ == src@.subrange(0, j as int),
                    decreases src@.len() - j,
                {
                    out.push(src[j]);
                    j += 1;
                    assert(out@ =~= src@.subrange(0, j as int));
                }
                assert(out@ =~= src@);
                out
            },
            None => Vec::new(),
        }
    }
}

impl AgentBusMetrics for InMemoryMetrics {
    closed spec fn recorded(&self) -> Seq<MetricRecord> {
        self.calls@
    }

    /// Tags are not kept.
    fn record_counter(&mut self, key: &str, value: i64, tags: &[(&str, &str)])
        ensures
            final(self).histograms() == old(self).histograms(),
            final(self).counters() == old(self).counters().insert(
                key@,
                counter_value(old(self).counters(), key@).wrapping_add(value),
            ),
            final(self).calls() == old(self).calls().push(metric_record(MetricKind::Counter, key@, value, tags@)),
    {
        proof {
            use_type_invariant(&*self);
        }
        let ghost rec = metric_record(MetricKind::Counter, key@, value, tags@);
        let mut taken = InMemoryMetrics::new();
        std::mem::swap(self, &mut taken);
        proof {
            use_type_invariant(&taken);
        }
        let ghost old_m = taken;
        let InMemoryMetrics { counters: mut list, histograms, calls } = taken;
        let ghost before = list@;
        let ghost old_counters = keyed_map(before);
        let k = key.to_owned();
        match find_key(&list, key) {
            Some(i) => {
                let n = list[i].1.wrapping_add(value);
                proof {
                    lemma_keyed_update(before, i as int, (k, n));
                }
                list.set(i, (k, n));
            },
            None => {
                let n = 0i64.wrapping_add(value);
                proof {
                    lemma_keyed_push(before, (k, n));
                }
                list.push((k, n));
            },
        }
        let ghost new_calls = calls@.push(rec);
        proof {
            assert(new_calls.drop_last() =~= calls@);
            assert forall|q: Seq<char>| #[trigger] counter_value(keyed_map(list@), q) == counter_total(new_calls, q) by {
                assert(counter_value(old_m.counters(), q) == counter_total(old_m.calls@, q));
            }
            let hmap = keyed_map(histograms@).map_values(|v: Vec<i64>| v@);
            assert forall|q: Seq<char>| #[trigger] histogram_value(hmap, q) == histogram_list(new_calls, q) by {
                assert(histogram_value(old_m.histograms(), q) == histogram_list(old_m.calls@, q));
                assert(hmap == old_m.histograms());
            }
        }
        *self = InMemoryMetrics { counters: list, histograms, calls: Ghost(new_calls) };
    }

    /// Tags are not kept.
    fn record_histogram(&mut self, key: &str, value: i64, tags: &[(&str, &str)])
        ensures
            final(self).counters() == old(self).counters(),
            final(self).histograms() == old(self).histograms().insert(
                key@,
                histogram_value(old(self).histograms(), key@).push(value),
            ),
            final(self).calls() == old(self).calls().push(metric_record(MetricKind::Histogram, key@, value, tags@)),
    {
        proof {
            use_type_invariant(&*self);
        }
        let ghost rec = metric_record(MetricKind::Histogram, key@, value, tags@);
        let mut taken = InMemoryMetrics::new();
        std::mem::swap(self, &mut taken);
        proof {
            use_type_invariant(&taken);
        }
        let ghost old_m = taken;
        let InMemoryMetrics { counters, histograms: mut list, calls } = taken;
        let ghost before = list@;
        let ghost old_hist = keyed_map(before).map_values(|v: Vec<i64>| v@);
        let k = key.to_owned();
        match find_key(&list, key) {
            Some(i) => {
                let (key_string, mut values) = list.remove(i);
                values.push(value);
                let ghost pair = (key_string, values);
                list.insert(i, (key_string, values));
                proof {
                    assert(list@ =~= before.update(i as int, pair));
                    lemma_keyed_update(before, i as int, pair);
                    assert(keyed_map(list@).map_values(|v: Vec<i64>| v@) =~= old_hist.insert(key@, old_hist[key@].push(value)));
                }
            },
            None => {
                let mut values: Vec<i64> = Vec::new();
                values.push(value);
                proof {
                    lemma_keyed_push(before, (k, values));
                }
                list.push((k, values));
                proof {
                    assert(keyed_map(list@).map_values(|v: Vec<i64>| v@) =~= old_hist.insert(key@, Seq::<i64>::empty().push(value)));
                }
            },
        }
        let ghost new_calls = calls@.push(rec);
        proof {
            assert(new_calls.drop_last() =~= calls@);
            assert forall|q: Seq<char>| #[trigger] counter_value(keyed_map(counters@), q) == counter_total(new_calls, q) by {
                assert(counter_value(old_m.counters(), q) == counter_total(old_m.calls@, q));
            }
            let hmap = keyed_map(list@).map_values(|v: Vec<i64>| v@);
            assert forall|q: Seq<char>| #[trigger] histogram_value(hmap, q) == histogram_list(new_calls, q) by {
                assert(histogram_value(old_m.histograms(), q) == histogram_list(old_m.calls@, q));
                assert(old_hist == old_m.histograms());
            }
        }
        *self = InMemoryMetrics { counters, histograms: list, calls: Ghost(new_calls) };
    }
}

/// Discards all metrics.
pub struct NoopMetrics {
    calls: Ghost<Seq<MetricRecord>>,
}

impl NoopMetrics {
    pub fn new() -> (m: Self)
        ensures
            m.recorded().len() == 0,
    {
        NoopMetrics { calls: Ghost(Seq::empty()) }
    }
}

impl AgentBusMetrics for NoopMetrics {
    closed spec fn recorded(&self) -> Seq<MetricRecord> {
        self.calls@
    }

    fn record_counter(&mut self, key: &str, value: i64, tags: &[(&str, &str)]) {
        self.calls = Ghost(self.calls@.push(metric_record(MetricKind::Counter, key@, value, tags@)));
    }

    fn record_histogram(&mut self, key: &str, value: i64, tags: &[(&str, &str)]) {
        self.calls = Ghost(self.calls@.push(metric_record(MetricKind::Histogram, key@, value, tags@)));
    }
}

} // verus!
