use vstd::prelude::*;
use crate::encode::{full_name, line, tags_text};
use crate::metric::{MetricKind, MetricModel, ValueModel, same_series};
use crate::registry::{
    as_absolute, can_fold, clip64, entries_wf, entry_wf, fold, index_of, merged_entries,
    union_members,
};
use crate::encode::header_text;
use crate::render::{bucket_counts, datum_text, exposition};
use crate::statistic::{lemma_weight_le_monotone, pair_count, total_weight};
use crate::text::digits;

verus! {

proof fn lemma_index_of_found(ms: Seq<MetricModel>, m: MetricModel, i: int)
    requires
        0 <= i <= ms.len(),
    ensures
        i <= index_of(ms, m, i) <= ms.len(),
        index_of(ms, m, i) < ms.len() ==> same_series(ms[index_of(ms, m, i)], m),
        index_of(ms, m, i) == ms.len() ==> forall|j: int|
            i <= j < ms.len() ==> !same_series(#[trigger] ms[j], m),
    decreases ms.len() - i,
{
    if i < ms.len() && !same_series(ms[i], m) {
        lemma_index_of_found(ms, m, i + 1);
    }
}

/// After an absolute update is merged, the registry holds exactly that update
/// for its series, whatever it held before: the one entry of the series is the
/// update itself.
pub proof fn absolute_merge_keeps_last_write(
    ms: Seq<MetricModel>,
    item: MetricModel,
    last: int,
    period: int,
    now: int,
)
    requires
        entries_wf(ms),
        entry_wf(item),
    ensures
        ({
            let r = merged_entries(ms, item, last, period, now);
            &&& exists|k: int| 0 <= k < r.len() && r[k] == item
            &&& forall|i: int| 0 <= i < r.len() && same_series(#[trigger] r[i], item) ==> r[i] == item
        }),
{
    let r = merged_entries(ms, item, last, period, now);
    lemma_index_of_found(ms, item, 0);
    let k = index_of(ms, item, 0);
    if k < ms.len() {
        assert(r[k] == item);
        assert forall|i: int| 0 <= i < r.len() && same_series(#[trigger] r[i], item) implies r[i]
            == item by {
            if i != k {
                assert(same_series(ms[i], ms[k]) || !same_series(ms[i], item));
                if i < k {
                    assert(!same_series(ms[i], ms[k]));
                } else {
                    assert(!same_series(ms[k], ms[i]));
                }
            }
        }
    } else {
        assert(r[ms.len() as int] == item);
    }
}

/// Folding counter or gauge updates does not depend on how they are batched:
/// while no sum leaves the range of `i64`, folding `b` then `c` into `a` equals
/// folding `b + c` into `a`, and both hold the arithmetic sum.
pub proof fn fold_ignores_batching(a: i64, b: i64, c: i64, gauge: bool)
    requires
        i64::MIN <= a + b + c <= i64::MAX,
        i64::MIN <= a + b <= i64::MAX,
        i64::MIN <= b + c <= i64::MAX,
    ensures
        ({
            let mk = |x: int|
                if gauge {
                    ValueModel::Gauge(x)
                } else {
                    ValueModel::Counter(x)
                };
            &&& fold(fold(mk(a as int), mk(b as int)), mk(c as int)) == fold(
                mk(a as int),
                fold(mk(b as int), mk(c as int)),
            )
            &&& fold(fold(mk(a as int), mk(b as int)), mk(c as int)) == mk(a + b + c)
        }),
{
}

/// An incremental counter update to a stored counter moves the entry to the
/// end of the order, holding the sum of the two values (while it fits `i64`).
pub proof fn incremental_counter_merge_sums(
    ms: Seq<MetricModel>,
    item: MetricModel,
    last: int,
    period: int,
    now: int,
)
    requires
        entries_wf(ms),
        item.kind == MetricKind::Incremental,
        index_of(ms, item, 0) < ms.len(),
        ms[index_of(ms, item, 0)].value is Counter,
        item.value is Counter,
        i64::MIN <= ms[index_of(ms, item, 0)].value->Counter_0 + item.value->Counter_0 <= i64::MAX,
    ensures
        ({
            let r = merged_entries(ms, item, last, period, now);
            &&& r.len() == ms.len()
            &&& r.last().value == ValueModel::Counter(
                ms[index_of(ms, item, 0)].value->Counter_0 + item.value->Counter_0,
            )
            &&& same_series(r.last(), item)
        }),
{
    lemma_index_of_found(ms, item, 0);
}

proof fn lemma_push_contains(s: Seq<Seq<char>>, y: Seq<char>)
    ensures
        forall|x: Seq<char>| #[trigger] s.push(y).contains(x) <==> (s.contains(x) || x == y),
        s.no_duplicates() && !s.contains(y) ==> s.push(y).no_duplicates(),
{
    let t = s.push(y);
    assert forall|x: Seq<char>| #[trigger] t.contains(x) <==> (s.contains(x) || x == y) by {
        if t.contains(x) {
            let i = choose|i: int| 0 <= i < t.len() && t[i] == x;
            if i < s.len() {
                assert(s[i] == x);
            }
        }
        if s.contains(x) {
            let i = choose|i: int| 0 <= i < s.len() && s[i] == x;
            assert(t[i] == x);
        }
        if x == y {
            assert(t[s.len() as int] == x);
        }
    }
    if s.no_duplicates() && !s.contains(y) {
        assert forall|i: int, j: int| 0 <= i < t.len() && 0 <= j < t.len() && i != j implies t[i]
            != t[j] by {
            if i == s.len() {
                assert(s[j] == t[j]);
            } else if j == s.len() {
                assert(s[i] == t[i]);
            }
        }
    }
}

proof fn lemma_union(a: Seq<Seq<char>>, b: Seq<Seq<char>>, n: nat)
    requires
        a.no_duplicates(),
        n <= b.len(),
    ensures
        union_members(a, b, n).no_duplicates(),
        forall|x: Seq<char>|
            #[trigger] union_members(a, b, n).contains(x) <==> (a.contains(x) || b.take(
                n as int,
            ).contains(x)),
    decreases n,
{
    if n == 0 {
        assert forall|x: Seq<char>| !(#[trigger] b.take(0).contains(x)) by {}
    } else {
        lemma_union(a, b, (n - 1) as nat);
        let r = union_members(a, b, (n - 1) as nat);
        let y = b[n - 1];
        let p = b.take(n - 1);
        assert(b.take(n as int) =~= p.push(y));
        lemma_push_contains(r, y);
        lemma_push_contains(p, y);
    }
}

/// Folding set updates keeps each member once and holds exactly the members
/// observed in either, so the exposed count (when not expired) is the number of
/// distinct members observed; an expired set is exposed as zero.
pub proof fn set_count_is_distinct_members(
    namespace: Option<&str>,
    buckets: Seq<i64>,
    quantiles: Seq<i64>,
    expired: bool,
    m: MetricModel,
    a: Seq<Seq<char>>,
    b: Seq<Seq<char>>,
)
    requires
        a.no_duplicates(),
        m.kind == MetricKind::Absolute,
        m.value == fold(ValueModel::Members(a), ValueModel::Members(b)),
    ensures
        ({
            let u = union_members(a, b, b.len());
            &&& u.to_set() == a.to_set().union(b.to_set())
            &&& u.len() == u.to_set().len()
            &&& datum_text(namespace, buckets, quantiles, expired, m) == line(
                full_name(namespace, m.name) + tags_text(m.tags),
                digits(
                    if expired {
                        0
                    } else {
                        u.to_set().len()
                    },
                ),
            )
        }),
{
    let u = union_members(a, b, b.len());
    lemma_union(a, b, b.len());
    assert(b.take(b.len() as int) =~= b);
    assert(u.to_set() =~= a.to_set().union(b.to_set()));
    u.unique_seq_to_set();
}

/// Buckets built from raw samples are cumulative: a larger bound never counts
/// less, and no bucket counts more than the `+Inf` bucket, which is the total
/// weight of the samples.
pub proof fn histogram_buckets_cumulative(
    buckets: Seq<i64>,
    vs: Seq<i64>,
    ws: Seq<u32>,
    i: int,
    j: int,
)
    requires
        0 <= i < buckets.len(),
        0 <= j < buckets.len(),
        buckets[i] <= buckets[j],
    ensures
        bucket_counts(buckets, vs, ws)[i] <= bucket_counts(buckets, vs, ws)[j],
        bucket_counts(buckets, vs, ws)[j] <= total_weight(ws, pair_count(vs, ws)),
{
    lemma_weight_le_monotone(vs, ws, pair_count(vs, ws), buckets[i] as int, buckets[j] as int);
}

/// The entries after merging `items` one after another, all at `now`.
pub open spec fn merge_all(
    ms: Seq<MetricModel>,
    items: Seq<MetricModel>,
    last: int,
    period: int,
    now: int,
) -> Seq<MetricModel>
    decreases items.len(),
{
    if items.len() == 0 {
        ms
    } else {
        merged_entries(merge_all(ms, items.drop_last(), last, period, now), items.last(), last, period, now)
    }
}

/// The number a counter or gauge holds.
pub open spec fn amount(v: ValueModel) -> int {
    match v {
        ValueModel::Counter(x) => x,
        ValueModel::Gauge(x) => x,
        _ => 0,
    }
}

/// A counter or gauge of the given value, of the same kind as `like`.
pub open spec fn scalar_like(like: ValueModel, x: int) -> ValueModel {
    if like is Gauge {
        ValueModel::Gauge(x)
    } else {
        ValueModel::Counter(x)
    }
}

/// Sum of the counter or gauge values of the first `n` updates.
pub open spec fn counter_sum(items: Seq<MetricModel>, n: nat) -> int
    decreases n,
{
    if n == 0 {
        0
    } else {
        counter_sum(items, (n - 1) as nat) + amount(items[n - 1].value)
    }
}

/// A series that has never been seen, fed any sequence of incremental counter
/// updates (or of gauge updates), ends up as one entry, last in order, holding the arithmetic sum of
/// the updates (while every partial sum fits `i64`), however they were batched.
#[verifier::spinoff_prover]
pub proof fn incremental_counters_sum(
    ms: Seq<MetricModel>,
    items: Seq<MetricModel>,
    last: int,
    period: int,
    now: int,
)
    requires
        items.len() > 0,
        forall|j: int| 0 <= j < ms.len() ==> !same_series(#[trigger] ms[j], items[0]),
        forall|i: int|
            0 <= i < items.len() ==> (#[trigger] items[i]).kind == MetricKind::Incremental
                && (items[0].value is Counter || items[0].value is Gauge) && items[i].value
                is Counter == items[0].value is Counter && items[i].value is Gauge
                == items[0].value is Gauge && same_series(items[i], items[0]),
        forall|n: nat| n <= items.len() ==> i64::MIN <= #[trigger] counter_sum(items, n) <= i64::MAX,
    ensures
        ({
            let r = merge_all(ms, items, last, period, now);
            &&& r.len() == ms.len() + 1
            &&& same_series(r.last(), items[0])
            &&& r.last().value == scalar_like(items[0].value, counter_sum(items, items.len()))
            &&& forall|j: int| 0 <= j < r.len() - 1 ==> !same_series(#[trigger] r[j], items[0])
        }),
    decreases items.len(),
{
    let item = items.last();
    let n = items.len();
    assert(same_series(items[n - 1], items[0]));
    if n == 1 {
        assert(items.drop_last() =~= Seq::<MetricModel>::empty());
        lemma_index_of_found(ms, item, 0);
        if index_of(ms, item, 0) < ms.len() {
            assert(same_series(ms[index_of(ms, item, 0)], items[0]));
        }
        assert(counter_sum(items, 1) == counter_sum(items, 0) + amount(items[0].value));
    } else {
        let p = items.drop_last();
        assert forall|i: int| 0 <= i < p.len() implies (#[trigger] p[i]).kind
            == MetricKind::Incremental && (p[0].value is Counter || p[0].value is Gauge)
            && p[i].value is Counter == p[0].value is Counter && p[i].value is Gauge == p[0].value
            is Gauge && same_series(p[i], p[0]) by {
            assert(p[i] == items[i]);
            assert(p[0] == items[0]);
            assert(same_series(items[i], items[0]));
        }
        assert forall|m: nat| m <= p.len() implies i64::MIN <= #[trigger] counter_sum(p, m)
            <= i64::MAX by {
            lemma_counter_sum_prefix(items, m);
            assert(counter_sum(items, m) == counter_sum(p, m));
        }
        incremental_counters_sum(ms, p, last, period, now);
        let r0 = merge_all(ms, p, last, period, now);
        lemma_index_of_found(r0, item, 0);
        let k = index_of(r0, item, 0);
        if k < r0.len() - 1 {
            assert(same_series(r0[k], items[0]));
        }
        if k == r0.len() {
            assert(same_series(r0[r0.len() - 1], items[0]));
            assert(!same_series(r0[r0.len() - 1], item));
        }
        assert(k == r0.len() - 1);
        lemma_counter_sum_prefix(items, (n - 1) as nat);
        assert(counter_sum(items, (n - 1) as nat) == counter_sum(p, p.len()));
        assert(counter_sum(items, n) == counter_sum(items, (n - 1) as nat) + amount(item.value));
        assert(p[0] == items[0]);
        let r = merge_all(ms, items, last, period, now);
        assert(r == merged_entries(r0, item, last, period, now));
        assert forall|j: int| 0 <= j < r.len() - 1 implies !same_series(#[trigger] r[j], items[0]) by {
            assert(r[j] == r0[j]);
        }
    }
}

proof fn lemma_counter_sum_prefix(items: Seq<MetricModel>, m: nat)
    requires
        items.len() > 0,
        m <= items.len() - 1,
    ensures
        counter_sum(items, m) == counter_sum(items.drop_last(), m),
    decreases m,
{
    if m > 0 {
        lemma_counter_sum_prefix(items, (m - 1) as nat);
    }
}

/// Within one rendering each name gets its header once: the first entry of a
/// name is preceded by the name's `# HELP` and `# TYPE` lines, and any later
/// entry of the same name adds only its data lines.
pub proof fn header_once_per_name(
    namespace: Option<&str>,
    buckets: Seq<i64>,
    quantiles: Seq<i64>,
    expired: bool,
    ms: Seq<MetricModel>,
    i: int,
    j: int,
)
    requires
        0 <= i < j < ms.len(),
        ms[i].name == ms[j].name,
        forall|l: int| 0 <= l < i ==> (#[trigger] ms[l]).name != ms[i].name,
    ensures
        exposition(namespace, buckets, quantiles, expired, ms, (i + 1) as nat) == exposition(
            namespace,
            buckets,
            quantiles,
            expired,
            ms,
            i as nat,
        ) + header_text(namespace, ms[i].name, ms[i].value) + datum_text(
            namespace,
            buckets,
            quantiles,
            expired,
            ms[i],
        ),
        exposition(namespace, buckets, quantiles, expired, ms, (j + 1) as nat) == exposition(
            namespace,
            buckets,
            quantiles,
            expired,
            ms,
            j as nat,
        ) + datum_text(namespace, buckets, quantiles, expired, ms[j]),
{
    assert(ms[i].name == ms[j].name);
    assert(Seq::<char>::empty() + datum_text(namespace, buckets, quantiles, expired, ms[j])
        =~= datum_text(namespace, buckets, quantiles, expired, ms[j]));
    let e = exposition(namespace, buckets, quantiles, expired, ms, j as nat);
    assert(e + Seq::<char>::empty() =~= e);
}

/// Members observed by the first `n` updates.
pub open spec fn members_seen(items: Seq<MetricModel>, n: nat) -> Set<Seq<char>>
    decreases n,
{
    if n == 0 {
        Set::empty()
    } else {
        members_seen(items, (n - 1) as nat).union(items[n - 1].value->Members_0.to_set())
    }
}

proof fn lemma_index_of_last(r: Seq<MetricModel>, m: MetricModel)
    requires
        r.len() > 0,
        same_series(r.last(), m),
        forall|j: int| 0 <= j < r.len() - 1 ==> !same_series(#[trigger] r[j], m),
    ensures
        index_of(r, m, 0) == r.len() - 1,
{
    lemma_index_of_found(r, m, 0);
    let k = index_of(r, m, 0);
    if k < r.len() - 1 {
        assert(same_series(r[k], m));
    }
    if k == r.len() {
        assert(!same_series(r[r.len() - 1], m));
    }
}

/// A series that has never been seen, fed any sequence of incremental set
/// updates while no reset falls due, ends up as one entry, last in order,
/// holding each member once: exactly the members of all the updates.
pub proof fn incremental_sets_union(
    ms: Seq<MetricModel>,
    items: Seq<MetricModel>,
    last: int,
    period: int,
    now: int,
)
    requires
        items.len() > 0,
        now - last <= period,
        forall|j: int| 0 <= j < ms.len() ==> !same_series(#[trigger] ms[j], items[0]),
        forall|i: int|
            0 <= i < items.len() ==> (#[trigger] items[i]).kind == MetricKind::Incremental
                && items[i].value is Members && items[i].value->Members_0.no_duplicates()
                && same_series(items[i], items[0]),
    ensures
        ({
            let r = merge_all(ms, items, last, period, now);
            &&& r.len() == ms.len() + 1
            &&& same_series(r.last(), items[0])
            &&& r.last().value is Members
            &&& r.last().value->Members_0.no_duplicates()
            &&& r.last().value->Members_0.to_set() == members_seen(items, items.len())
            &&& forall|j: int| 0 <= j < r.len() - 1 ==> !same_series(#[trigger] r[j], items[0])
        }),
    decreases items.len(),
{
    let item = items.last();
    let n = items.len();
    assert(same_series(items[n - 1], items[0]));
    if n == 1 {
        assert(items.drop_last() =~= Seq::<MetricModel>::empty());
        lemma_index_of_found(ms, item, 0);
        if index_of(ms, item, 0) < ms.len() {
            assert(same_series(ms[index_of(ms, item, 0)], items[0]));
        }
        assert(members_seen(items, 0) == Set::<Seq<char>>::empty());
        assert(members_seen(items, 1) =~= items[0].value->Members_0.to_set());
    } else {
        let p = items.drop_last();
        assert forall|i: int| 0 <= i < p.len() implies (#[trigger] p[i]).kind
            == MetricKind::Incremental && p[i].value is Members
            && p[i].value->Members_0.no_duplicates() && same_series(p[i], p[0]) by {
            assert(p[i] == items[i]);
            assert(p[0] == items[0]);
        }
        assert(p[0] == items[0]);
        incremental_sets_union(ms, p, last, period, now);
        let r0 = merge_all(ms, p, last, period, now);
        assert forall|j: int| 0 <= j < r0.len() - 1 implies !same_series(#[trigger] r0[j], item) by {
            assert(!same_series(r0[j], items[0]));
        }
        lemma_index_of_last(r0, item);
        lemma_members_seen_prefix(items, (n - 1) as nat);
        let a = r0.last().value->Members_0;
        let b = item.value->Members_0;
        lemma_union(a, b, b.len());
        assert(b.take(b.len() as int) =~= b);
        let r = merge_all(ms, items, last, period, now);
        assert(r == merged_entries(r0, item, last, period, now));
        assert(r.last().value == fold(r0.last().value, item.value));
        assert(union_members(a, b, b.len()).to_set() =~= members_seen(items, n));
        assert forall|j: int| 0 <= j < r.len() - 1 implies !same_series(#[trigger] r[j], items[0]) by {
            assert(r[j] == r0[j]);
        }
    }
}

proof fn lemma_members_seen_prefix(items: Seq<MetricModel>, m: nat)
    requires
        items.len() > 0,
        m <= items.len() - 1,
    ensures
        members_seen(items, m) == members_seen(items.drop_last(), m),
    decreases m,
{
    if m > 0 {
        lemma_members_seen_prefix(items, (m - 1) as nat);
    }
}

/// Merging two incremental counter (or gauge) deltas one after the other
/// leaves the same entries, in the same order, as merging their sum at once,
/// while every sum fits `i64`.
pub proof fn split_deltas_merge_alike(
    ms: Seq<MetricModel>,
    a: MetricModel,
    b: MetricModel,
    last: int,
    period: int,
    now: int,
)
    requires
        entries_wf(ms),
        a.kind == MetricKind::Incremental,
        b.kind == MetricKind::Incremental,
        same_series(a, b),
        a.value is Counter || a.value is Gauge,
        b.value is Counter == a.value is Counter,
        b.value is Gauge == a.value is Gauge,
        i64::MIN <= amount(a.value) + amount(b.value) <= i64::MAX,
        index_of(ms, a, 0) < ms.len() ==> can_fold(ms[index_of(ms, a, 0)].value, a.value)
            && i64::MIN <= amount(ms[index_of(ms, a, 0)].value) + amount(a.value) <= i64::MAX
            && i64::MIN <= amount(ms[index_of(ms, a, 0)].value) + amount(a.value) + amount(
            b.value,
        ) <= i64::MAX,
    ensures
        merged_entries(merged_entries(ms, a, last, period, now), b, last, period, now)
            == merged_entries(
            ms,
            MetricModel { value: scalar_like(a.value, amount(a.value) + amount(b.value)), ..a },
            last,
            period,
            now,
        ),
{
    let c = MetricModel { value: scalar_like(a.value, amount(a.value) + amount(b.value)), ..a };
    lemma_index_of_found(ms, a, 0);
    lemma_index_of_found(ms, c, 0);
    let k = index_of(ms, a, 0);
    let r1 = merged_entries(ms, a, last, period, now);
    if k == ms.len() {
        assert(index_of(ms, c, 0) == ms.len()) by {
            if index_of(ms, c, 0) < ms.len() {
                assert(same_series(ms[index_of(ms, c, 0)], a));
            }
        }
        assert forall|j: int| 0 <= j < r1.len() - 1 implies !same_series(#[trigger] r1[j], b) by {
            assert(r1[j] == ms[j]);
            assert(!same_series(ms[j], a));
        }
        lemma_index_of_last(r1, b);
        assert(merged_entries(r1, b, last, period, now) =~= ms.push(as_absolute(c)));
    } else {
        assert(index_of(ms, c, 0) == k) by {
            lemma_index_of_agree(ms, a, c, 0);
        }
        assert forall|j: int| 0 <= j < r1.len() - 1 implies !same_series(#[trigger] r1[j], b) by {
            let oj = if j < k { j } else { j + 1 };
            assert(r1[j] == ms[oj]);
            if oj < k {
                assert(!same_series(ms[oj], ms[k]));
            } else {
                assert(!same_series(ms[k], ms[oj]));
            }
        }
        lemma_index_of_last(r1, b);
        assert(r1.remove(r1.len() - 1) =~= ms.remove(k));
        assert(merged_entries(r1, b, last, period, now) =~= merged_entries(ms, c, last, period, now));
    }
}

proof fn lemma_index_of_agree(ms: Seq<MetricModel>, a: MetricModel, c: MetricModel, i: int)
    requires
        0 <= i <= ms.len(),
        a.name == c.name,
        a.tags == c.tags,
    ensures
        index_of(ms, a, i) == index_of(ms, c, i),
    decreases ms.len() - i,
{
    if i < ms.len() {
        lemma_index_of_agree(ms, a, c, i + 1);
    }
}

} // verus!
