use vstd::prelude::*;
use vstd::string::StringExecFns;
use crate::metric::{Metric, MetricValue, StatisticKind, Tag, ValueModel, tags_view, text_less, text_lt};

verus! {

/// `name="value"`
pub open spec fn tag_text(p: (Seq<char>, Seq<char>)) -> Seq<char> {
    p.0 + seq!['=', '"'] + p.1 + seq!['"']
}

/// The first `n` labels, comma separated.
pub open spec fn joined(c: Seq<(Seq<char>, Seq<char>)>, n: nat) -> Seq<char>
    decreases n,
{
    if n == 0 {
        Seq::empty()
    } else {
        let sep = if n == 1 {
            Seq::empty()
        } else {
            seq![',']
        };
        joined(c, (n - 1) as nat) + sep + tag_text(c[n - 1])
    }
}

/// The label block: `{a="1",b="2"}`, or nothing at all for no labels.
pub open spec fn tags_text(c: Seq<(Seq<char>, Seq<char>)>) -> Seq<char> {
    if c.len() == 0 {
        Seq::empty()
    } else {
        seq!['{'] + joined(c, c.len()) + seq!['}']
    }
}

/// Index of the first label at or after `i` whose name sorts after `name`.
pub open spec fn first_after(t: Seq<(Seq<char>, Seq<char>)>, name: Seq<char>, i: int) -> int
    decreases t.len() - i,
{
    if i >= t.len() {
        t.len() as int
    } else if text_lt(name, t[i].0) {
        i
    } else {
        first_after(t, name, i + 1)
    }
}

/// The labels with one more merged in at its place in the name order.
pub open spec fn with_extra(t: Seq<(Seq<char>, Seq<char>)>, e: (Seq<char>, Seq<char>)) -> Seq<(Seq<char>, Seq<char>)> {
    t.insert(first_after(t, e.0, 0), e)
}

pub open spec fn full_name(namespace: Option<&str>, name: Seq<char>) -> Seq<char> {
    match namespace {
        Some(ns) => ns@ + seq!['_'] + name,
        None => name,
    }
}

/// A data line: series, a space, the value, a newline.
pub open spec fn line(series: Seq<char>, value: Seq<char>) -> Seq<char> {
    series + seq![' '] + value + seq!['\n']
}

pub open spec fn kind_label(v: ValueModel) -> Seq<char> {
    match v {
        ValueModel::Counter(_) => "counter"@,
        ValueModel::Gauge(_) => "gauge"@,
        ValueModel::Members(_) => "gauge"@,
        ValueModel::Distribution(_, _, StatisticKind::Histogram) => "histogram"@,
        ValueModel::Distribution(_, _, StatisticKind::Summary) => "summary"@,
        ValueModel::AggregatedHistogram(..) => "histogram"@,
        ValueModel::AggregatedSummary(..) => "summary"@,
    }
}

pub open spec fn header_text(namespace: Option<&str>, name: Seq<char>, v: ValueModel) -> Seq<char> {
    let fq = full_name(namespace, name);
    "# HELP "@ + fq + seq![' '] + name + seq!['\n'] + "# TYPE "@ + fq + seq![' '] + kind_label(v)
        + seq!['\n']
}

fn push_tag(s: &mut String, first: bool, name: &str, value: &str)
    ensures
        final(s)@ == old(s)@ + (if first {
            Seq::empty()
        } else {
            seq![',']
        }) + tag_text((name@, value@)),
{
    proof {
        reveal_strlit(",");
        reveal_strlit("=\"");
        reveal_strlit("\"");
    }
    if !first {
        s.append(",");
    }
    s.append(name);
    s.append("=\"");
    s.append(value);
    s.append("\"");
}

/// The label block of `tags`.
pub fn encode_tags(tags: &Vec<Tag>) -> (r: String)
    ensures
        r@ == tags_text(tags_view(tags@)),
{
    let ghost c = tags_view(tags@);
    let mut s = String::new();
    if tags.len() == 0 {
        return s;
    }
    proof {
        reveal_strlit("{");
        reveal_strlit("}");
    }
    s.append("{");
    let mut i: usize = 0;
    while i < tags.len()
        invariant
            c == tags_view(tags@),
            i <= tags.len(),
            s@ == seq!['{'] + joined(c, i as nat),
        decreases tags.len() - i,
    {
        push_tag(&mut s, i == 0, tags[i].name.as_str(), tags[i].value.as_str());
        assert(c[i as int] == (tags[i as int].name@, tags[i as int].value@));
        i = i + 1;
        assert(s@ =~= seq!['{'] + joined(c, i as nat));
    }
    s.append("}");
    s
}

/// The label block of `tags` with the label `tag="value"` merged in, placed
/// before the first label whose name sorts after `tag`.
pub fn encode_tags_with_extra(tags: &Vec<Tag>, tag: String, value: String) -> (r: String)
    ensures
        r@ == tags_text(with_extra(tags_view(tags@), (tag@, value@))),
{
    let ghost t = tags_view(tags@);
    let ghost e = (tag@, value@);
    let ghost k = first_after(t, tag@, 0);
    let ghost c = with_extra(t, e);
    proof {
        lemma_first_after_bounds(t, tag@, 0);
        reveal_strlit("{");
        reveal_strlit("}");
    }
    let mut s = String::new();
    s.append("{");
    let mut inserted = false;
    let mut i: usize = 0;
    while i < tags.len()
        invariant
            t == tags_view(tags@),
            e == (tag@, value@),
            0 <= k <= t.len(),
            c == t.insert(k, e),
            i <= tags.len(),
            inserted == (k < i || (k == i && inserted)),
            inserted ==> k <= i,
            !inserted ==> first_after(t, tag@, i as int) == k,
            !inserted ==> k >= i,
            s@ == seq!['{'] + joined(c, (i + if inserted {
                1int
            } else {
                0int
            }) as nat),
        decreases tags.len() - i,
    {
        assert(t[i as int] == (tags[i as int].name@, tags[i as int].value@));
        if !inserted && text_less(tag.as_str(), tags[i].name.as_str()) {
            assert(k == i);
            assert(s@ == seq!['{'] + joined(c, i as nat));
            push_tag(&mut s, i == 0, tag.as_str(), value.as_str());
            inserted = true;
            assert(c[i as int] == e);
            proof { lemma_joined_step(c, i as nat); }
            assert(s@ =~= seq!['{'] + joined(c, (i + 1) as nat));
        } else if !inserted {
            proof {
                lemma_first_after_bounds(t, tag@, i + 1);
            }
            assert(k > i);
        }
        let n: usize = if inserted { i + 1 } else { i };
        push_tag(&mut s, n == 0, tags[i].name.as_str(), tags[i].value.as_str());
        assert(c[n as int] == t[i as int]);
        proof { lemma_joined_step(c, n as nat); }
        assert(s@ =~= seq!['{'] + joined(c, (n + 1) as nat));
        i = i + 1;
    }
    if !inserted {
        assert(k == tags.len());
        push_tag(&mut s, i == 0, tag.as_str(), value.as_str());
        assert(c[i as int] == e);
        proof { lemma_joined_step(c, i as nat); }
        assert(s@ =~= seq!['{'] + joined(c, (i + 1) as nat));
    }
    s.append("}");
    assert(c.len() == tags.len() + 1);
    s
}

proof fn lemma_joined_step(c: Seq<(Seq<char>, Seq<char>)>, n: nat)
    ensures
        joined(c, n + 1) == joined(c, n) + (if n == 0 {
            Seq::empty()
        } else {
            seq![',']
        }) + tag_text(c[n as int]),
{
}

proof fn lemma_first_after_bounds(t: Seq<(Seq<char>, Seq<char>)>, name: Seq<char>, i: int)
    requires
        0 <= i <= t.len(),
    ensures
        i <= first_after(t, name, i) <= t.len(),
    decreases t.len() - i,
{
    if i < t.len() && !text_lt(name, t[i].0) {
        lemma_first_after_bounds(t, name, i + 1);
    }
}

/// The namespaced name: `namespace_name`, or the bare name.
pub fn encode_namespace(namespace: Option<&str>, name: &str) -> (r: String)
    ensures
        r@ == full_name(namespace, name@),
{
    proof {
        reveal_strlit("_");
    }
    match namespace {
        Some(ns) => {
            let mut s = String::from_str(ns);
            s.append("_");
            s.append(name);
            s
        },
        None => String::from_str(name),
    }
}

fn type_str(v: &MetricValue) -> (r: &'static str)
    ensures
        r@ == kind_label(v@),
{
    match v {
        MetricValue::Counter { .. } => "counter",
        MetricValue::Gauge { .. } => "gauge",
        MetricValue::Members { .. } => "gauge",
        MetricValue::Distribution { statistic: StatisticKind::Histogram, .. } => "histogram",
        MetricValue::Distribution { statistic: StatisticKind::Summary, .. } => "summary",
        MetricValue::AggregatedHistogram { .. } => "histogram",
        MetricValue::AggregatedSummary { .. } => "summary",
    }
}

/// The `# HELP` and `# TYPE` lines of a metric.
pub fn encode_metric_header(namespace: Option<&str>, metric: &Metric) -> (r: String)
    ensures
        r@ == header_text(namespace, metric.name@, metric.value@),
{
    proof {
        reveal_strlit(" ");
        reveal_strlit("\n");
    }
    let fullname = encode_namespace(namespace, metric.name.as_str());
    let mut s = String::from_str("# HELP ");
    s.append(fullname.as_str());
    s.append(" ");
    s.append(metric.name.as_str());
    s.append("\n");
    s.append("# TYPE ");
    s.append(fullname.as_str());
    s.append(" ");
    s.append(type_str(&metric.value));
    s.append("\n");
    s
}

} // verus!
