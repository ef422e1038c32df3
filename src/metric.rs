use vstd::prelude::*;

verus! {

/// One `name="value"` label of a time series.
pub struct Tag {
    pub name: String,
    pub value: String,
}

/// How the raw samples of a distribution are exposed.
#[derive(Clone, Copy, PartialEq, Eq, Structural)]
pub enum StatisticKind {
    Histogram,
    Summary,
}

/// Whether an update is a delta to fold in or a value that replaces the stored one.
#[derive(Clone, Copy, PartialEq, Eq, Structural)]
pub enum MetricKind {
    Incremental,
    Absolute,
}

/// The payload of a metric. Every number is fixed-point, in millionths of a unit.
#[allow(inconsistent_fields)]
pub enum MetricValue {
    Counter { value: i64 },
    Gauge { value: i64 },
    /// Distinct members observed.
    Members { values: Vec<String> },
    /// Raw samples, each with a weight (how many times it was observed).
    Distribution { values: Vec<i64>, sample_rates: Vec<u32>, statistic: StatisticKind },
    AggregatedHistogram { buckets: Vec<i64>, counts: Vec<u64>, count: u64, sum: i64 },
    AggregatedSummary { quantiles: Vec<i64>, values: Vec<i64>, count: u64, sum: i64 },
}

/// One update, or one stored entry, of a time series.
pub struct Metric {
    pub name: String,
    /// Labels, in increasing order of name.
    pub tags: Vec<Tag>,
    pub kind: MetricKind,
    pub value: MetricValue,
}

/// What a metric value is, over mathematical sequences.
pub enum ValueModel {
    Counter(int),
    Gauge(int),
    Members(Seq<Seq<char>>),
    Distribution(Seq<i64>, Seq<u32>, StatisticKind),
    AggregatedHistogram(Seq<i64>, Seq<u64>, u64, i64),
    AggregatedSummary(Seq<i64>, Seq<i64>, u64, i64),
}

pub struct MetricModel {
    pub name: Seq<char>,
    pub tags: Seq<(Seq<char>, Seq<char>)>,
    pub kind: MetricKind,
    pub value: ValueModel,
}

pub open spec fn tags_view(tags: Seq<Tag>) -> Seq<(Seq<char>, Seq<char>)> {
    tags.map_values(|t: Tag| (t.name@, t.value@))
}

pub open spec fn strings_view(v: Seq<String>) -> Seq<Seq<char>> {
    v.map_values(|s: String| s@)
}

impl View for MetricValue {
    type V = ValueModel;

    open spec fn view(&self) -> ValueModel {
        match self {
            MetricValue::Counter { value } => ValueModel::Counter(*value as int),
            MetricValue::Gauge { value } => ValueModel::Gauge(*value as int),
            MetricValue::Members { values } => ValueModel::Members(strings_view(values@)),
            MetricValue::Distribution { values, sample_rates, statistic } => {
                ValueModel::Distribution(values@, sample_rates@, *statistic)
            },
            MetricValue::AggregatedHistogram { buckets, counts, count, sum } => {
                ValueModel::AggregatedHistogram(buckets@, counts@, *count, *sum)
            },
            MetricValue::AggregatedSummary { quantiles, values, count, sum } => {
                ValueModel::AggregatedSummary(quantiles@, values@, *count, *sum)
            },
        }
    }
}

impl View for Metric {
    type V = MetricModel;

    open spec fn view(&self) -> MetricModel {
        MetricModel {
            name: self.name@,
            tags: tags_view(self.tags@),
            kind: self.kind,
            value: self.value@,
        }
    }
}

/// Strict lexicographic order of texts, character by character.
pub open spec fn text_lt(a: Seq<char>, b: Seq<char>) -> bool
    decreases a.len(),
{
    if b.len() == 0 {
        false
    } else if a.len() == 0 {
        true
    } else if a[0] != b[0] {
        (a[0] as u32) < (b[0] as u32)
    } else {
        text_lt(a.drop_first(), b.drop_first())
    }
}

/// Label names are strictly increasing.
pub open spec fn tags_sorted(t: Seq<(Seq<char>, Seq<char>)>) -> bool {
    forall|i: int, j: int| 0 <= i < j < t.len() ==> text_lt(#[trigger] t[i].0, #[trigger] t[j].0)
}

/// A set value holds each member once.
pub open spec fn value_wf(v: ValueModel) -> bool {
    match v {
        ValueModel::Members(m) => m.no_duplicates(),
        _ => true,
    }
}

impl Metric {
    /// Labels sorted by name, set members distinct.
    pub open spec fn wf(&self) -> bool {
        tags_sorted(self@.tags) && value_wf(self@.value)
    }
}

/// Same name and same labels: the same time series.
pub open spec fn same_series(a: MetricModel, b: MetricModel) -> bool {
    a.name == b.name && a.tags == b.tags
}

/// Whether `a` is the same text as `b`.
pub fn same_text(a: &str, b: &str) -> (r: bool)
    ensures
        r == (a@ == b@),
{
    let n = a.unicode_len();
    let m = b.unicode_len();
    if n != m {
        return false;
    }
    let mut i: usize = 0;
    while i < n
        invariant
            n == a@.len(),
            m == b@.len(),
            n == m,
            i <= n,
            a@.take(i as int) =~= b@.take(i as int),
        decreases n - i,
    {
        if a.get_char(i) != b.get_char(i) {
            return false;
        }
        assert(a@.take(i + 1) =~= a@.take(i as int).push(a@[i as int]));
        assert(b@.take(i + 1) =~= b@.take(i as int).push(b@[i as int]));
        i = i + 1;
    }
    assert(a@ =~= a@.take(n as int));
    assert(b@ =~= b@.take(n as int));
    true
}

/// Whether `a` comes strictly before `b` in lexicographic order.
pub fn text_less(a: &str, b: &str) -> (r: bool)
    ensures
        r == text_lt(a@, b@),
{
    let n = a.unicode_len();
    let m = b.unicode_len();
    let mut i: usize = 0;
    assert(a@.skip(0) =~= a@);
    assert(b@.skip(0) =~= b@);
    while i < n && i < m
        invariant
            n == a@.len(),
            m == b@.len(),
            i <= n,
            i <= m,
            text_lt(a@, b@) == text_lt(a@.skip(i as int), b@.skip(i as int)),
        decreases n - i,
    {
        let ca = a.get_char(i);
        let cb = b.get_char(i);
        assert(a@.skip(i as int)[0] == ca);
        assert(b@.skip(i as int)[0] == cb);
        if ca != cb {
            return (ca as u32) < (cb as u32);
        }
        assert(a@.skip(i as int).drop_first() =~= a@.skip(i + 1));
        assert(b@.skip(i as int).drop_first() =~= b@.skip(i + 1));
        i = i + 1;
    }
    i < m
}

/// Whether two label lists are equal.
pub fn same_tags(a: &Vec<Tag>, b: &Vec<Tag>) -> (r: bool)
    ensures
        r == (tags_view(a@) == tags_view(b@)),
{
    if a.len() != b.len() {
        assert(tags_view(a@).len() != tags_view(b@).len());
        return false;
    }
    let mut i: usize = 0;
    while i < a.len()
        invariant
            a.len() == b.len(),
            i <= a.len(),
            forall|j: int| 0 <= j < i ==> tags_view(a@)[j] == tags_view(b@)[j],
        decreases a.len() - i,
    {
        if !same_text(a[i].name.as_str(), b[i].name.as_str()) || !same_text(
            a[i].value.as_str(),
            b[i].value.as_str(),
        ) {
            assert(tags_view(a@)[i as int] != tags_view(b@)[i as int]);
            return false;
        }
        i = i + 1;
    }
    assert(tags_view(a@) =~= tags_view(b@));
    true
}

/// Whether two metrics belong to the same time series.
pub fn same_series_exec(a: &Metric, b: &Metric) -> (r: bool)
    ensures
        r == same_series(a@, b@),
{
    same_text(a.name.as_str(), b.name.as_str()) && same_tags(&a.tags, &b.tags)
}

impl Metric {
    /// Whether the labels are sorted by name, without repeats, and set
    /// members are distinct.
    pub fn is_well_formed(&self) -> (r: bool)
        ensures
            r == self.wf(),
    {
        let ghost t = tags_view(self.tags@);
        let mut i: usize = 1;
        while i < self.tags.len()
            invariant
                t == tags_view(self.tags@),
                1 <= i,
                forall|b: int| 1 <= b < i && b < t.len() ==> text_lt(t[b - 1].0, #[trigger] t[b].0),
            decreases self.tags.len() - i,
        {
            if !text_less(self.tags[i - 1].name.as_str(), self.tags[i].name.as_str()) {
                assert(!text_lt(t[i - 1].0, t[i as int].0));
                return false;
            }
            i = i + 1;
        }
        proof {
            lemma_adjacent_sorted(t);
        }
        match &self.value {
            MetricValue::Members { values } => {
                let ghost m = strings_view(values@);
                assert(self@.value == ValueModel::Members(m));
                let mut j: usize = 0;
                while j < values.len()
                    invariant
                        m == strings_view(values@),
                        self@.value == ValueModel::Members(m),
                        j <= values.len(),
                        forall|a: int, b: int| 0 <= a < b < j ==> m[a] != m[b],
                    decreases values.len() - j,
                {
                    let mut l: usize = 0;
                    while l < j
                        invariant
                            m == strings_view(values@),
                            self@.value == ValueModel::Members(m),
                            j < values.len(),
                            l <= j,
                            forall|a: int| 0 <= a < l ==> m[a] != m[j as int],
                        decreases j - l,
                    {
                        if same_text(values[l].as_str(), values[j].as_str()) {
                            assert(m[l as int] == m[j as int]);
                            assert(!m.no_duplicates());
                            assert(!value_wf(self@.value));
                            return false;
                        }
                        l = l + 1;
                    }
                    j = j + 1;
                }
                true
            },
            _ => true,
        }
    }
}

proof fn lemma_text_lt_trans(a: Seq<char>, b: Seq<char>, c: Seq<char>)
    requires
        text_lt(a, b),
        text_lt(b, c),
    ensures
        text_lt(a, c),
    decreases a.len(),
{
    if a.len() > 0 && b.len() > 0 && c.len() > 0 && a[0] == b[0] && b[0] == c[0] {
        lemma_text_lt_trans(a.drop_first(), b.drop_first(), c.drop_first());
    }
}

proof fn lemma_adjacent_sorted(t: Seq<(Seq<char>, Seq<char>)>)
    requires
        forall|b: int| 1 <= b < t.len() ==> text_lt(t[b - 1].0, #[trigger] t[b].0),
    ensures
        tags_sorted(t),
    decreases t.len(),
{
    if t.len() > 1 {
        let p = t.drop_last();
        lemma_adjacent_sorted(p);
        assert forall|i: int, j: int| 0 <= i < j < t.len() implies text_lt(
            #[trigger] t[i].0,
            #[trigger] t[j].0,
        ) by {
            if j < t.len() - 1 {
                assert(p[i] == t[i] && p[j] == t[j]);
            } else if i < j - 1 {
                assert(p[i] == t[i] && p[j - 1] == t[j - 1]);
                lemma_text_lt_trans(t[i].0, t[j - 1].0, t[j].0);
            }
        }
    }
}

} // verus!
