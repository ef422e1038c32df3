use vstd::prelude::*;
use crate::metric::{
    Metric, MetricKind, MetricModel, MetricValue, ValueModel, same_series, same_series_exec,
    same_text, strings_view, tags_sorted, value_wf,
};
use crate::render::{Reply, exposition, handle, is_scrape, models};

verus! {

/// The smallest flush period, in seconds, that a registry accepts.
pub const MIN_FLUSH_PERIOD_SECS: u64 = 1;

/// Settings that keep the endpoint from starting.
pub enum BuildError {
    /// The flush period is below `min` seconds.
    FlushPeriodTooShort { min: u64 },
    /// A quantile level lies outside 0 and 1.
    QuantileOutOfRange,
    /// A quantile level is not strictly below the next one.
    QuantilesNotIncreasing,
}

pub enum MergeError {
    /// The stored value of the series cannot absorb the update.
    KindMismatch,
}

/// The latest value of each time series, in exposition order, and the instant
/// at which set members were last forgotten.
pub struct Registry {
    pub metrics: Vec<Metric>,
    pub last_flush_timestamp: i64,
    pub flush_period_secs: u64,
}

/// Index of the first entry from `i` on in the series of `m`, or the length.
pub open spec fn index_of(ms: Seq<MetricModel>, m: MetricModel, i: int) -> int
    decreases ms.len() - i,
{
    if i >= ms.len() {
        ms.len() as int
    } else if same_series(ms[i], m) {
        i
    } else {
        index_of(ms, m, i + 1)
    }
}

pub open spec fn clip64(x: int) -> int {
    if x > i64::MAX {
        i64::MAX as int
    } else if x < i64::MIN {
        i64::MIN as int
    } else {
        x
    }
}

/// `a` with the first `n` members of `b` that it lacks appended.
pub open spec fn union_members(a: Seq<Seq<char>>, b: Seq<Seq<char>>, n: nat) -> Seq<Seq<char>>
    decreases n,
{
    if n == 0 {
        a
    } else {
        let r = union_members(a, b, (n - 1) as nat);
        if r.contains(b[n - 1]) {
            r
        } else {
            r.push(b[n - 1])
        }
    }
}

/// Whether a stored value can absorb an incremental update: both counters,
/// both gauges, both sets or both distributions.
pub open spec fn can_fold(a: ValueModel, b: ValueModel) -> bool {
    match (a, b) {
        (ValueModel::Counter(_), ValueModel::Counter(_)) => true,
        (ValueModel::Gauge(_), ValueModel::Gauge(_)) => true,
        (ValueModel::Members(_), ValueModel::Members(_)) => true,
        (ValueModel::Distribution(..), ValueModel::Distribution(..)) => true,
        _ => false,
    }
}

/// `a` with the update `b` added: sums held within `i64`, union of members,
/// samples appended.
pub open spec fn fold(a: ValueModel, b: ValueModel) -> ValueModel {
    match (a, b) {
        (ValueModel::Counter(x), ValueModel::Counter(y)) => ValueModel::Counter(clip64(x + y)),
        (ValueModel::Gauge(x), ValueModel::Gauge(y)) => ValueModel::Gauge(clip64(x + y)),
        (ValueModel::Members(x), ValueModel::Members(y)) => ValueModel::Members(
            union_members(x, y, y.len()),
        ),
        (ValueModel::Distribution(v1, w1, s), ValueModel::Distribution(v2, w2, _)) => {
            ValueModel::Distribution(v1 + v2, w1 + w2, s)
        },
        _ => a,
    }
}

/// The value with every observation forgotten.
pub open spec fn cleared(a: ValueModel) -> ValueModel {
    match a {
        ValueModel::Members(_) => ValueModel::Members(Seq::empty()),
        _ => a,
    }
}

pub open spec fn as_absolute(m: MetricModel) -> MetricModel {
    MetricModel { kind: MetricKind::Absolute, ..m }
}

/// The merge of `item` can take place: it is absolute, or its series is new,
/// or the stored value can absorb it.
pub open spec fn mergeable(ms: Seq<MetricModel>, item: MetricModel) -> bool {
    let k = index_of(ms, item, 0);
    item.kind == MetricKind::Absolute || k == ms.len() || can_fold(ms[k].value, item.value)
}

/// Whether the set members must be forgotten before folding `item` at `now`.
pub open spec fn resets(item: MetricModel, last: int, period: int, now: int) -> bool {
    item.value is Members && now - last > period
}

/// Entries after merging `item` at `now`: an absolute update replaces the
/// stored entry in place (or is appended); an incremental one is folded into
/// the stored entry, which moves to the end (or is appended as is, absolute).
pub open spec fn merged_entries(
    ms: Seq<MetricModel>,
    item: MetricModel,
    last: int,
    period: int,
    now: int,
) -> Seq<MetricModel> {
    let k = index_of(ms, item, 0);
    if item.kind == MetricKind::Absolute {
        if k < ms.len() {
            ms.update(k, item)
        } else {
            ms.push(item)
        }
    } else if k == ms.len() {
        ms.push(as_absolute(item))
    } else {
        let base = if resets(item, last, period, now) {
            cleared(ms[k].value)
        } else {
            ms[k].value
        };
        ms.remove(k).push(MetricModel { value: fold(base, item.value), ..ms[k] })
    }
}

/// The instant of the last forgetting after merging `item` at `now`.
pub open spec fn merged_flush(
    ms: Seq<MetricModel>,
    item: MetricModel,
    last: int,
    period: int,
    now: int,
) -> int {
    let k = index_of(ms, item, 0);
    if item.kind == MetricKind::Incremental && k < ms.len() && resets(item, last, period, now) {
        now
    } else {
        last
    }
}

pub open spec fn entry_wf(m: MetricModel) -> bool {
    tags_sorted(m.tags) && value_wf(m.value) && m.kind == MetricKind::Absolute
}

/// Entries are absolute and well formed, one per series.
pub open spec fn entries_wf(ms: Seq<MetricModel>) -> bool {
    &&& forall|i: int| 0 <= i < ms.len() ==> entry_wf(#[trigger] ms[i])
    &&& forall|i: int, j: int|
        0 <= i < j < ms.len() ==> !same_series(#[trigger] ms[i], #[trigger] ms[j])
}

/// What a merge of `item` at `now` leaves: the merged state when it succeeds
/// (it succeeds exactly when `mergeable`), the same state when it fails.
pub open spec fn merge_done(
    before: Registry,
    after: Registry,
    item: MetricModel,
    now: int,
    ok: bool,
) -> bool {
    let ms = before.entries();
    let last = before.last_flush_timestamp as int;
    let period = before.flush_period_secs as int;
    &&& ok <==> mergeable(ms, item)
    &&& ok ==> after.entries() == merged_entries(ms, item, last, period, now)
        && after.last_flush_timestamp == merged_flush(ms, item, last, period, now)
    &&& !ok ==> after == before
    &&& after.flush_period_secs == before.flush_period_secs
    &&& after.wf()
}

/// Relies on chrono's `Utc::now` and `DateTime::timestamp`: the current time,
/// in whole seconds since the Unix epoch. Nothing is known of its value.
#[verifier::external_body]
fn now_secs() -> (r: i64) {
    chrono::Utc::now().timestamp()
}

impl Registry {
    pub open spec fn entries(&self) -> Seq<MetricModel> {
        models(self.metrics@)
    }

    /// More than the flush period has passed at `now` since the set members
    /// were last forgotten.
    pub open spec fn expired_at(&self, now: int) -> bool {
        now - self.last_flush_timestamp > self.flush_period_secs
    }

    pub open spec fn wf(&self) -> bool {
        entries_wf(self.entries())
    }

    /// An empty registry whose set members are forgotten every
    /// `flush_period_secs` seconds, counted from `now`; refused below the
    /// minimum period.
    pub fn new(flush_period_secs: u64, now: i64) -> (r: Result<Registry, BuildError>)
        ensures
            flush_period_secs < MIN_FLUSH_PERIOD_SECS <==> r is Err,
            r matches Err(BuildError::FlushPeriodTooShort { min }) ==> min == MIN_FLUSH_PERIOD_SECS,
            r matches Ok(g) ==> g.wf() && g.entries().len() == 0 && g.last_flush_timestamp == now
                && g.flush_period_secs == flush_period_secs,
    {
        if flush_period_secs < MIN_FLUSH_PERIOD_SECS {
            return Err(BuildError::FlushPeriodTooShort { min: MIN_FLUSH_PERIOD_SECS });
        }
        let r = Registry { metrics: Vec::new(), last_flush_timestamp: now, flush_period_secs };
        assert(r.entries() =~= Seq::<MetricModel>::empty());
        Ok(r)
    }

    /// Whether, at `now`, more than the flush period has passed since the set
    /// members were last forgotten.
    pub fn expired(&self, now: i64) -> (r: bool)
        ensures
            r == self.expired_at(now as int),
    {
        (now as i128 - self.last_flush_timestamp as i128) > self.flush_period_secs as i128
    }

    /// An empty registry that counts its flush period from the current time.
    pub fn new_now(flush_period_secs: u64) -> (r: Result<Registry, BuildError>)
        ensures
            flush_period_secs < MIN_FLUSH_PERIOD_SECS <==> r is Err,
            r matches Ok(g) ==> g.wf() && g.entries().len() == 0 && g.flush_period_secs
                == flush_period_secs,
    {
        Registry::new(flush_period_secs, now_secs())
    }

    /// Whether the set values are expired at the current time.
    pub fn expired_now(&self) -> (r: bool)
        ensures
            exists|now: i64| r == #[trigger] self.expired_at(now as int),
    {
        let now = now_secs();
        self.expired(now)
    }

    /// Merges one update at the current time.
    pub fn merge_now(&mut self, item: Metric) -> (r: Result<(), MergeError>)
        requires
            old(self).wf(),
            item.wf(),
        ensures
            exists|now: i64| #[trigger] merge_done(*old(self), *final(self), item@, now as int, r is Ok),
    {
        let now = now_secs();
        self.merge(item, now)
    }

    /// The answer to a request, given whether set values are expired: see
    /// `handle`.
    pub fn scrape(
        &self,
        method: &str,
        path: &str,
        namespace: Option<&str>,
        buckets: &Vec<i64>,
        quantiles: &Vec<i64>,
        expired: bool,
    ) -> (r: Reply)
        requires
            self.wf(),
        ensures
            is_scrape(method@, path@) ==> r.status == 200 && r.content_type@
                == "text/plain; version=0.0.4"@ && r.body@ == exposition(
                namespace,
                buckets@,
                quantiles@,
                expired,
                self.entries(),
                self.entries().len(),
            ),
            !is_scrape(method@, path@) ==> r.status == 404 && r.content_type@.len() == 0
                && r.body@.len() == 0,
    {
        assert forall|i: int| 0 <= i < self.metrics@.len() implies (#[trigger] self.metrics@[i]).wf() by {
            assert(entry_wf(self.entries()[i]));
        }
        handle(method, path, namespace, buckets, quantiles, expired, &self.metrics)
    }

    fn find(&self, item: &Metric) -> (k: usize)
        ensures
            k == index_of(self.entries(), item@, 0),
    {
        let ghost ms = self.entries();
        let mut i: usize = 0;
        while i < self.metrics.len()
            invariant
                ms == self.entries(),
                i <= self.metrics.len(),
                index_of(ms, item@, 0) == index_of(ms, item@, i as int),
            decreases self.metrics.len() - i,
        {
            assert(ms[i as int] == self.metrics@[i as int]@);
            if same_series_exec(&self.metrics[i], item) {
                return i;
            }
            i = i + 1;
        }
        i
    }

    /// Merges one update at `now` (seconds); see `merged_entries`. Fails, and
    /// changes nothing, when the stored value cannot absorb the update.
    pub fn merge(&mut self, item: Metric, now: i64) -> (r: Result<(), MergeError>)
        requires
            old(self).wf(),
            item.wf(),
        ensures
            merge_done(*old(self), *final(self), item@, now as int, r is Ok),
    {
        let ghost ms = self.entries();
        let ghost last = self.last_flush_timestamp as int;
        let ghost period = self.flush_period_secs as int;
        let k = self.find(&item);
        proof {
            lemma_index_of_bounds(ms, item@, 0);
        }
        if item.kind == MetricKind::Absolute {
            if k < self.metrics.len() {
                self.metrics.remove(k);
                self.metrics.insert(k, item);
                assert(self.entries() =~= ms.update(k as int, item@));
            } else {
                self.metrics.push(item);
                assert(self.entries() =~= ms.push(item@));
                proof {
                    lemma_index_of_none_before(ms, item@, 0);
                    lemma_push_wf(ms, item@);
                }
            }
            return Ok(());
        }
        if k == self.metrics.len() {
            let ghost im = item@;
            let Metric { name, tags, kind, value } = item;
            let item = Metric { name, tags, kind: MetricKind::Absolute, value };
            self.metrics.push(item);
            assert(self.entries() =~= ms.push(item@));
            proof {
                lemma_index_of_none_before(ms, im, 0);
                lemma_push_wf(ms, item@);
            }
            return Ok(());
        }
        assert(ms[k as int] == self.metrics@[k as int]@);
        if !can_fold_exec(&self.metrics[k].value, &item.value) {
            return Err(MergeError::KindMismatch);
        }
        let reset = match &item.value {
            MetricValue::Members { .. } => self.expired(now),
            _ => false,
        };
        let existing = self.metrics.remove(k);
        let Metric { name, tags, kind, value } = existing;
        let value = if reset {
            self.last_flush_timestamp = now;
            match value {
                MetricValue::Members { .. } => MetricValue::Members { values: Vec::new() },
                other => other,
            }
        } else {
            value
        };
        assert(value@ == (if resets(item@, last, period, now as int) {
            cleared(ms[k as int].value)
        } else {
            ms[k as int].value
        })) by {
            if reset {
                assert(strings_view(Seq::<String>::empty()) =~= Seq::<Seq<char>>::empty());
            }
        }
        let folded = fold_values(value, item.value);
        let entry = Metric { name, tags, kind, value: folded };
        self.metrics.push(entry);
        assert(self.entries() =~= merged_entries(ms, item@, last, period, now as int));
        proof {
            lemma_remove_push_wf(ms, k as int, entry@);
        }
        Ok(())
    }
}

proof fn lemma_push_wf(ms: Seq<MetricModel>, e: MetricModel)
    requires
        entries_wf(ms),
        entry_wf(e),
        forall|j: int| 0 <= j < ms.len() ==> !same_series(#[trigger] ms[j], e),
    ensures
        entries_wf(ms.push(e)),
{
    let r = ms.push(e);
    assert forall|i: int, j: int| 0 <= i < j < r.len() implies !same_series(
        #[trigger] r[i],
        #[trigger] r[j],
    ) by {
        if j == ms.len() {
            assert(!same_series(ms[i], e));
        }
    }
}

proof fn lemma_remove_push_wf(ms: Seq<MetricModel>, k: int, e: MetricModel)
    requires
        entries_wf(ms),
        0 <= k < ms.len(),
        same_series(ms[k], e),
        entry_wf(e),
    ensures
        entries_wf(ms.remove(k).push(e)),
{
    let r = ms.remove(k).push(e);
    assert forall|i: int, j: int| 0 <= i < j < r.len() implies !same_series(
        #[trigger] r[i],
        #[trigger] r[j],
    ) by {
        let oi = if i < k { i } else { i + 1 };
        if j == r.len() - 1 {
            assert(!same_series(ms[oi], ms[k]) || oi == k);
        } else {
            let oj = if j < k { j } else { j + 1 };
            assert(r[j] == ms[oj]);
        }
    }
}

fn can_fold_exec(a: &MetricValue, b: &MetricValue) -> (r: bool)
    ensures
        r == can_fold(a@, b@),
{
    match (a, b) {
        (MetricValue::Counter { .. }, MetricValue::Counter { .. }) => true,
        (MetricValue::Gauge { .. }, MetricValue::Gauge { .. }) => true,
        (MetricValue::Members { .. }, MetricValue::Members { .. }) => true,
        (MetricValue::Distribution { .. }, MetricValue::Distribution { .. }) => true,
        _ => false,
    }
}

fn add_clipped(a: i64, b: i64) -> (r: i64)
    ensures
        r == clip64(a + b),
{
    let s: i128 = a as i128 + b as i128;
    if s > i64::MAX as i128 {
        i64::MAX
    } else if s < i64::MIN as i128 {
        i64::MIN
    } else {
        s as i64
    }
}

fn contains_text(v: &Vec<String>, x: &String) -> (r: bool)
    ensures
        r == strings_view(v@).contains(x@),
{
    let mut i: usize = 0;
    while i < v.len()
        invariant
            i <= v.len(),
            forall|j: int| 0 <= j < i ==> strings_view(v@)[j] != x@,
        decreases v.len() - i,
    {
        if same_text(v[i].as_str(), x.as_str()) {
            assert(strings_view(v@)[i as int] == x@);
            return true;
        }
        i = i + 1;
    }
    false
}

fn fold_values(a: MetricValue, b: MetricValue) -> (r: MetricValue)
    requires
        can_fold(a@, b@),
        value_wf(a@),
    ensures
        r@ == fold(a@, b@),
        value_wf(r@),
{
    match (a, b) {
        (MetricValue::Counter { value: x }, MetricValue::Counter { value: y }) => {
            MetricValue::Counter { value: add_clipped(x, y) }
        },
        (MetricValue::Gauge { value: x }, MetricValue::Gauge { value: y }) => {
            MetricValue::Gauge { value: add_clipped(x, y) }
        },
        (MetricValue::Members { values: x }, MetricValue::Members { values: y }) => {
            let ghost x0 = strings_view(x@);
            let ghost y0 = strings_view(y@);
            let mut x = x;
            let mut i: usize = 0;
            while i < y.len()
                invariant
                    y0 == strings_view(y@),
                    i <= y.len(),
                    strings_view(x@) == union_members(x0, y0, i as nat),
                    strings_view(x@).no_duplicates(),
                decreases y.len() - i,
            {
                assert(y0[i as int] == y@[i as int]@);
                if !contains_text(&x, &y[i]) {
                    let c = y[i].clone();
                    x.push(c);
                    assert(strings_view(x@) =~= union_members(x0, y0, i as nat).push(y0[i as int]));
                }
                i = i + 1;
            }
            assert(y0.len() == y.len());
            MetricValue::Members { values: x }
        },
        (
            MetricValue::Distribution { values: v1, sample_rates: w1, statistic },
            MetricValue::Distribution { values: v2, sample_rates: w2, .. },
        ) => {
            let ghost a1 = v1@;
            let ghost b1 = w1@;
            let mut v = v1;
            let mut w = w1;
            let mut i: usize = 0;
            while i < v2.len()
                invariant
                    i <= v2.len(),
                    v@ == a1 + v2@.take(i as int),
                decreases v2.len() - i,
            {
                v.push(v2[i]);
                i = i + 1;
                assert(v@ =~= a1 + v2@.take(i as int));
            }
            let mut j: usize = 0;
            while j < w2.len()
                invariant
                    j <= w2.len(),
                    w@ == b1 + w2@.take(j as int),
                decreases w2.len() - j,
            {
                w.push(w2[j]);
                j = j + 1;
                assert(w@ =~= b1 + w2@.take(j as int));
            }
            assert(v2@.take(v2.len() as int) =~= v2@);
            assert(w2@.take(w2.len() as int) =~= w2@);
            MetricValue::Distribution { values: v, sample_rates: w, statistic }
        },
        (a, _) => a,
    }
}

proof fn lemma_index_of_bounds(ms: Seq<MetricModel>, m: MetricModel, i: int)
    requires
        0 <= i <= ms.len(),
    ensures
        i <= index_of(ms, m, i) <= ms.len(),
        index_of(ms, m, i) < ms.len() ==> same_series(ms[index_of(ms, m, i)], m),
    decreases ms.len() - i,
{
    if i < ms.len() && !same_series(ms[i], m) {
        lemma_index_of_bounds(ms, m, i + 1);
    }
}

proof fn lemma_index_of_none_before(ms: Seq<MetricModel>, m: MetricModel, i: int)
    requires
        0 <= i <= ms.len(),
    ensures
        forall|j: int| i <= j < index_of(ms, m, i) ==> !same_series(#[trigger] ms[j], m),
    decreases ms.len() - i,
{
    if i < ms.len() && !same_series(ms[i], m) {
        lemma_index_of_none_before(ms, m, i + 1);
    }
}

} // verus!
