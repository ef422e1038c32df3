use vstd::prelude::*;
use vstd::string::StringExecFns;
use crate::encode::{
    encode_metric_header, encode_namespace, encode_tags, encode_tags_with_extra, full_name,
    header_text, line, tags_text, with_extra,
};
use crate::metric::{
    Metric, MetricKind, MetricModel, MetricValue, StatisticKind, Tag, ValueModel, same_text,
    tags_view,
};
use crate::statistic::{
    DistributionStatistic, kth_of, max_of, min_of, pair_count, quantile_rank, statistic_of,
    total_weight, trunc_div, weight_le, weighted_sum,
};
use crate::text::{digits, fixed_text, push_digits, push_fixed};

verus! {

type Labels = Seq<(Seq<char>, Seq<char>)>;

/// `name_bucket{...,le="bound"} count`
pub open spec fn le_line(fq: Seq<char>, tags: Labels, b: int, c: nat) -> Seq<char> {
    line(fq + "_bucket"@ + tags_text(with_extra(tags, ("le"@, fixed_text(b)))), digits(c))
}

/// The first `n` bucket lines of bounds `bs` and counts `cs`.
pub open spec fn le_lines(fq: Seq<char>, tags: Labels, bs: Seq<i64>, cs: Seq<nat>, n: nat) -> Seq<
    char,
>
    decreases n,
{
    if n == 0 {
        Seq::empty()
    } else {
        le_lines(fq, tags, bs, cs, (n - 1) as nat) + le_line(fq, tags, bs[n - 1] as int, cs[n - 1])
    }
}

/// `name{...,quantile="level"} value`
pub open spec fn q_line(fq: Seq<char>, tags: Labels, q: int, v: int) -> Seq<char> {
    line(fq + tags_text(with_extra(tags, ("quantile"@, fixed_text(q)))), fixed_text(v))
}

/// The first `n` quantile lines of levels `qs` and values `vs`.
pub open spec fn q_lines(fq: Seq<char>, tags: Labels, qs: Seq<i64>, vs: Seq<int>, n: nat) -> Seq<
    char,
>
    decreases n,
{
    if n == 0 {
        Seq::empty()
    } else {
        q_lines(fq, tags, qs, vs, (n - 1) as nat) + q_line(fq, tags, qs[n - 1] as int, vs[n - 1])
    }
}

pub open spec fn min_len(a: nat, b: nat) -> nat {
    if a <= b {
        a
    } else {
        b
    }
}

/// Bucket counts of a raw distribution: each bound counts the weight of the
/// samples at or below it.
pub open spec fn bucket_counts(buckets: Seq<i64>, vs: Seq<i64>, ws: Seq<u32>) -> Seq<nat> {
    Seq::new(buckets.len(), |j: int| weight_le(vs, ws, pair_count(vs, ws), buckets[j] as int))
}

/// The `_bucket` lines, the `+Inf` bucket, `_sum` and `_count` of a histogram.
pub open spec fn histogram_text(
    fq: Seq<char>,
    tags: Labels,
    bs: Seq<i64>,
    cs: Seq<nat>,
    n: nat,
    count: nat,
    sum: int,
) -> Seq<char> {
    let tt = tags_text(tags);
    le_lines(fq, tags, bs, cs, n) + line(
        fq + "_bucket"@ + tags_text(with_extra(tags, ("le"@, "+Inf"@))),
        digits(count),
    ) + line(fq + "_sum"@ + tt, fixed_text(sum)) + line(fq + "_count"@ + tt, digits(count))
}

/// The quantile values of a raw distribution.
pub open spec fn quantile_values(qs: Seq<i64>, vs: Seq<i64>, ws: Seq<u32>) -> Seq<int> {
    let n = pair_count(vs, ws);
    Seq::new(qs.len(), |j: int| kth_of(vs, ws, n, quantile_rank(qs[j] as int, total_weight(ws, n))))
}

pub open spec fn summary_text(
    fq: Seq<char>,
    tags: Labels,
    qs: Seq<i64>,
    vs: Seq<i64>,
    ws: Seq<u32>,
) -> Seq<char> {
    let tt = tags_text(tags);
    let n = pair_count(vs, ws);
    let count = total_weight(ws, n);
    let sum = weighted_sum(vs, ws, n);
    if count == 0 {
        line(fq + "_sum"@ + tt, seq!['0']) + line(fq + "_count"@ + tt, seq!['0'])
    } else {
        q_lines(fq, tags, qs, quantile_values(qs, vs, ws), qs.len()) + line(
            fq + "_sum"@ + tt,
            fixed_text(sum),
        ) + line(fq + "_count"@ + tt, digits(count)) + line(
            fq + "_min"@ + tt,
            fixed_text(min_of(vs, ws, n)),
        ) + line(fq + "_max"@ + tt, fixed_text(max_of(vs, ws, n))) + line(
            fq + "_avg"@ + tt,
            fixed_text(trunc_div(sum, count as int)),
        )
    }
}

/// The data lines of one metric; nothing for one that is not absolute.
pub open spec fn datum_text(
    namespace: Option<&str>,
    buckets: Seq<i64>,
    quantiles: Seq<i64>,
    expired: bool,
    m: MetricModel,
) -> Seq<char> {
    let fq = full_name(namespace, m.name);
    let tt = tags_text(m.tags);
    if m.kind != MetricKind::Absolute {
        Seq::empty()
    } else {
        match m.value {
            ValueModel::Counter(v) => line(fq + tt, fixed_text(v)),
            ValueModel::Gauge(v) => line(fq + tt, fixed_text(v)),
            ValueModel::Members(ms) => line(
                fq + tt,
                digits(
                    if expired {
                        0
                    } else {
                        ms.len()
                    },
                ),
            ),
            ValueModel::Distribution(vs, ws, StatisticKind::Histogram) => {
                let n = pair_count(vs, ws);
                histogram_text(
                    fq,
                    m.tags,
                    buckets,
                    bucket_counts(buckets, vs, ws),
                    buckets.len(),
                    total_weight(ws, n),
                    weighted_sum(vs, ws, n),
                )
            },
            ValueModel::Distribution(vs, ws, StatisticKind::Summary) => summary_text(
                fq,
                m.tags,
                quantiles,
                vs,
                ws,
            ),
            ValueModel::AggregatedHistogram(bs, cs, count, sum) => histogram_text(
                fq,
                m.tags,
                bs,
                cs.map_values(|c: u64| c as nat),
                min_len(bs.len(), cs.len()),
                count as nat,
                sum as int,
            ),
            ValueModel::AggregatedSummary(qs, vs, count, sum) => q_lines(
                fq,
                m.tags,
                qs,
                vs.map_values(|v: i64| v as int),
                min_len(qs.len(), vs.len()),
            ) + line(fq + "_sum"@ + tt, fixed_text(sum as int)) + line(
                fq + "_count"@ + tt,
                digits(count as nat),
            ),
        }
    }
}

fn push_line_digits(s: &mut String, fq: &str, suffix: &str, tags: &str, v: u128)
    ensures
        final(s)@ == old(s)@ + line(fq@ + suffix@ + tags@, digits(v as nat)),
{
    proof {
        reveal_strlit(" ");
        reveal_strlit("\n");
    }
    let ghost s0 = s@;
    s.append(fq);
    s.append(suffix);
    s.append(tags);
    s.append(" ");
    push_digits(s, v);
    s.append("\n");
    assert(s@ =~= s0 + line(fq@ + suffix@ + tags@, digits(v as nat)));
}

fn push_line_fixed(s: &mut String, fq: &str, suffix: &str, tags: &str, v: i128)
    ensures
        final(s)@ == old(s)@ + line(fq@ + suffix@ + tags@, fixed_text(v as int)),
{
    proof {
        reveal_strlit(" ");
        reveal_strlit("\n");
    }
    let ghost s0 = s@;
    s.append(fq);
    s.append(suffix);
    s.append(tags);
    s.append(" ");
    push_fixed(s, v);
    s.append("\n");
    assert(s@ =~= s0 + line(fq@ + suffix@ + tags@, fixed_text(v as int)));
}

fn fixed_string(v: i64) -> (r: String)
    ensures
        r@ == fixed_text(v as int),
{
    let mut s = String::new();
    push_fixed(&mut s, v as i128);
    s
}

fn push_le_line(s: &mut String, fq: &str, tags: &Vec<Tag>, b: i64, c: u128)
    ensures
        final(s)@ == old(s)@ + le_line(fq@, tags_view(tags@), b as int, c as nat),
{
    let t = encode_tags_with_extra(tags, String::from_str("le"), fixed_string(b));
    push_line_digits(s, fq, "_bucket", t.as_str(), c);
}

fn push_q_line(s: &mut String, fq: &str, tags: &Vec<Tag>, q: i64, v: i64)
    ensures
        final(s)@ == old(s)@ + q_line(fq@, tags_view(tags@), q as int, v as int),
{
    let t = encode_tags_with_extra(tags, String::from_str("quantile"), fixed_string(q));
    proof {
        reveal_strlit("");
    }
    push_line_fixed(s, fq, "", t.as_str(), v as i128);
    assert(fq@ + ""@ + t@ =~= fq@ + t@);
}

/// The `+Inf` bucket, `_sum` and `_count` lines of a histogram.
fn push_histogram_tail(s: &mut String, fq: &str, tags: &Vec<Tag>, count: u128, sum: i128)
    ensures
        final(s)@ == old(s)@ + line(
            fq@ + "_bucket"@ + tags_text(with_extra(tags_view(tags@), ("le"@, "+Inf"@))),
            digits(count as nat),
        ) + line(fq@ + "_sum"@ + tags_text(tags_view(tags@)), fixed_text(sum as int)) + line(
            fq@ + "_count"@ + tags_text(tags_view(tags@)),
            digits(count as nat),
        ),
{
    let ghost s0 = s@;
    let inf = encode_tags_with_extra(tags, String::from_str("le"), String::from_str("+Inf"));
    push_line_digits(s, fq, "_bucket", inf.as_str(), count);
    let ghost s1 = s@;
    let tt = encode_tags(tags);
    push_line_fixed(s, fq, "_sum", tt.as_str(), sum);
    let ghost s2 = s@;
    push_line_digits(s, fq, "_count", tt.as_str(), count);
    assert(s@ =~= s0 + (s1.skip(s0.len() as int)) + (s2.skip(s1.len() as int)) + s@.skip(
        s2.len() as int,
    ));
}

/// Bucket lines for bounds `bs` with counts `cs`, as far as both reach.
fn push_le_lines(s: &mut String, fq: &str, tags: &Vec<Tag>, bs: &Vec<i64>, cs: &Vec<u64>)
    ensures
        final(s)@ == old(s)@ + le_lines(
            fq@,
            tags_view(tags@),
            bs@,
            cs@.map_values(|c: u64| c as nat),
            min_len(bs@.len(), cs@.len()),
        ),
{
    let ghost s0 = s@;
    let ghost cn = cs@.map_values(|c: u64| c as nat);
    let n: usize = if bs.len() <= cs.len() { bs.len() } else { cs.len() };
    let mut i: usize = 0;
    while i < n
        invariant
            n == min_len(bs@.len(), cs@.len()),
            cn == cs@.map_values(|c: u64| c as nat),
            i <= n,
            s@ == s0 + le_lines(fq@, tags_view(tags@), bs@, cn, i as nat),
        decreases n - i,
    {
        push_le_line(s, fq, tags, bs[i], cs[i] as u128);
        i = i + 1;
    }
}

/// Bucket lines of a raw distribution over the configured bounds.
fn push_distribution_buckets(
    s: &mut String,
    fq: &str,
    tags: &Vec<Tag>,
    buckets: &Vec<i64>,
    values: &Vec<i64>,
    rates: &Vec<u32>,
)
    ensures
        final(s)@ == old(s)@ + le_lines(
            fq@,
            tags_view(tags@),
            buckets@,
            bucket_counts(buckets@, values@, rates@),
            buckets@.len(),
        ),
{
    let ghost s0 = s@;
    let ghost cn = bucket_counts(buckets@, values@, rates@);
    let n: usize = if values.len() <= rates.len() { values.len() } else { rates.len() };
    let mut i: usize = 0;
    while i < buckets.len()
        invariant
            n == pair_count(values@, rates@),
            cn == bucket_counts(buckets@, values@, rates@),
            i <= buckets.len(),
            s@ == s0 + le_lines(fq@, tags_view(tags@), buckets@, cn, i as nat),
        decreases buckets.len() - i,
    {
        let c = crate::statistic::weight_at_most(values, rates, n, buckets[i]);
        push_le_line(s, fq, tags, buckets[i], c);
        i = i + 1;
    }
}

/// Quantile lines for levels `qs` with values `vs`, as far as both reach.
fn push_q_lines(s: &mut String, fq: &str, tags: &Vec<Tag>, qs: &Vec<i64>, vs: &Vec<i64>)
    ensures
        final(s)@ == old(s)@ + q_lines(
            fq@,
            tags_view(tags@),
            qs@,
            vs@.map_values(|v: i64| v as int),
            min_len(qs@.len(), vs@.len()),
        ),
{
    let ghost s0 = s@;
    let ghost vn = vs@.map_values(|v: i64| v as int);
    let n: usize = if qs.len() <= vs.len() { qs.len() } else { vs.len() };
    let mut i: usize = 0;
    while i < n
        invariant
            n == min_len(qs@.len(), vs@.len()),
            vn == vs@.map_values(|v: i64| v as int),
            i <= n,
            s@ == s0 + q_lines(fq@, tags_view(tags@), qs@, vn, i as nat),
        decreases n - i,
    {
        push_q_line(s, fq, tags, qs[i], vs[i]);
        i = i + 1;
    }
}

/// The summary lines of a raw distribution.
fn push_summary(
    s: &mut String,
    fq: &str,
    tags: &Vec<Tag>,
    quantiles: &Vec<i64>,
    values: &Vec<i64>,
    rates: &Vec<u32>,
)
    ensures
        final(s)@ == old(s)@ + summary_text(fq@, tags_view(tags@), quantiles@, values@, rates@),
{
    let ghost s0 = s@;
    let tt = encode_tags(tags);
    match DistributionStatistic::new(values, rates, quantiles) {
        Some(st) => {
            let ghost qv = quantile_values(quantiles@, values@, rates@);
            let mut i: usize = 0;
            while i < st.quantiles.len()
                invariant
                    statistic_of(values@, rates@, quantiles@, st),
                    qv == quantile_values(quantiles@, values@, rates@),
                    i <= st.quantiles.len(),
                    s@ == s0 + q_lines(fq@, tags_view(tags@), quantiles@, qv, i as nat),
                decreases st.quantiles.len() - i,
            {
                let (q, v) = st.quantiles[i];
                assert(qv[i as int] == v);
                push_q_line(s, fq, tags, q, v);
                i = i + 1;
            }
            let ghost s1 = s@;
            push_line_fixed(s, fq, "_sum", tt.as_str(), st.sum);
            push_line_digits(s, fq, "_count", tt.as_str(), st.count);
            push_line_fixed(s, fq, "_min", tt.as_str(), st.min as i128);
            push_line_fixed(s, fq, "_max", tt.as_str(), st.max as i128);
            push_line_fixed(s, fq, "_avg", tt.as_str(), st.avg);
            assert(s@ =~= s0 + summary_text(fq@, tags_view(tags@), quantiles@, values@, rates@));
        },
        None => {
            proof {
                reveal_strlit("0");
            }
            let ghost s1 = s@;
            push_line_fixed(s, fq, "_sum", tt.as_str(), 0);
            push_line_digits(s, fq, "_count", tt.as_str(), 0);
            assert(s@ =~= s0 + summary_text(fq@, tags_view(tags@), quantiles@, values@, rates@));
        },
    }
}

/// The data lines of `metric`, numbers in millionths; `expired` reports set
/// values as zero. A metric that is not absolute yields no line. Its labels
/// are sorted by name, so each label block comes out sorted.
pub fn encode_metric_datum(
    namespace: Option<&str>,
    buckets: &Vec<i64>,
    quantiles: &Vec<i64>,
    expired: bool,
    metric: &Metric,
) -> (r: String)
    requires
        metric.wf(),
    ensures
        r@ == datum_text(namespace, buckets@, quantiles@, expired, metric@),
{
    let mut s = String::new();
    let fullname = encode_namespace(namespace, metric.name.as_str());
    let fq = fullname.as_str();
    if metric.kind != MetricKind::Absolute {
        return s;
    }
    let tags = &metric.tags;
    let tt = encode_tags(tags);
    proof {
        reveal_strlit("");
    }
    assert(fq@ + ""@ + tt@ =~= fq@ + tt@);
    match &metric.value {
        MetricValue::Counter { value } => {
            push_line_fixed(&mut s, fq, "", tt.as_str(), *value as i128);
        },
        MetricValue::Gauge { value } => {
            push_line_fixed(&mut s, fq, "", tt.as_str(), *value as i128);
        },
        MetricValue::Members { values } => {
            let n: u128 = if expired { 0 } else { values.len() as u128 };
            push_line_digits(&mut s, fq, "", tt.as_str(), n);
        },
        MetricValue::Distribution { values, sample_rates, statistic: StatisticKind::Histogram } => {
            let n: usize = if values.len() <= sample_rates.len() {
                values.len()
            } else {
                sample_rates.len()
            };
            push_distribution_buckets(&mut s, fq, tags, buckets, values, sample_rates);
            let count = crate::statistic::total_of(sample_rates, n);
            let sum = crate::statistic::sum_of(values, sample_rates, n);
            push_histogram_tail(&mut s, fq, tags, count, sum);
        },
        MetricValue::Distribution { values, sample_rates, statistic: StatisticKind::Summary } => {
            push_summary(&mut s, fq, tags, quantiles, values, sample_rates);
        },
        MetricValue::AggregatedHistogram { buckets, counts, count, sum } => {
            push_le_lines(&mut s, fq, tags, buckets, counts);
            push_histogram_tail(&mut s, fq, tags, *count as u128, *sum as i128);
        },
        MetricValue::AggregatedSummary { quantiles, values, count, sum } => {
            push_q_lines(&mut s, fq, tags, quantiles, values);
            push_line_fixed(&mut s, fq, "_sum", tt.as_str(), *sum as i128);
            push_line_digits(&mut s, fq, "_count", tt.as_str(), *count as u128);
        },
    }
    assert(s@ =~= datum_text(namespace, buckets@, quantiles@, expired, metric@));
    s
}

pub open spec fn models(ms: Seq<Metric>) -> Seq<MetricModel> {
    ms.map_values(|m: Metric| m@)
}

/// An earlier entry has the same name as entry `i`.
pub open spec fn seen_before(ms: Seq<MetricModel>, i: int) -> bool {
    exists|j: int| 0 <= j < i && ms[j].name == ms[i].name
}

/// The exposition of the first `n` entries, in order: each name's header once,
/// before its first entry, then each entry's data lines.
pub open spec fn exposition(
    namespace: Option<&str>,
    buckets: Seq<i64>,
    quantiles: Seq<i64>,
    expired: bool,
    ms: Seq<MetricModel>,
    n: nat,
) -> Seq<char>
    decreases n,
{
    if n == 0 {
        Seq::empty()
    } else {
        let i = n - 1;
        exposition(namespace, buckets, quantiles, expired, ms, (n - 1) as nat) + (if seen_before(
            ms,
            i,
        ) {
            Seq::empty()
        } else {
            header_text(namespace, ms[i].name, ms[i].value)
        }) + datum_text(namespace, buckets, quantiles, expired, ms[i])
    }
}

/// The exposition text of all `metrics`, in their order.
pub fn encode_metrics(
    namespace: Option<&str>,
    buckets: &Vec<i64>,
    quantiles: &Vec<i64>,
    expired: bool,
    metrics: &Vec<Metric>,
) -> (r: String)
    requires
        forall|i: int| 0 <= i < metrics@.len() ==> (#[trigger] metrics@[i]).wf(),
    ensures
        r@ == exposition(
            namespace,
            buckets@,
            quantiles@,
            expired,
            models(metrics@),
            metrics@.len(),
        ),
{
    let ghost ms = models(metrics@);
    let mut s = String::new();
    let mut i: usize = 0;
    while i < metrics.len()
        invariant
            ms == models(metrics@),
            forall|l: int| 0 <= l < metrics@.len() ==> (#[trigger] metrics@[l]).wf(),
            i <= metrics.len(),
            s@ == exposition(namespace, buckets@, quantiles@, expired, ms, i as nat),
        decreases metrics.len() - i,
    {
        let frame = encode_metric_datum(namespace, buckets, quantiles, expired, &metrics[i]);
        let mut seen = false;
        let mut j: usize = 0;
        while j < i
            invariant
                ms == models(metrics@),
                i < metrics.len(),
                j <= i,
                seen <==> exists|l: int| 0 <= l < j && ms[l].name == ms[i as int].name,
            decreases i - j,
        {
            assert(ms[j as int] == metrics@[j as int]@ && ms[i as int] == metrics@[i as int]@);
            if same_text(metrics[j].name.as_str(), metrics[i].name.as_str()) {
                seen = true;
            }
            j = j + 1;
        }
        assert(ms[i as int] == metrics@[i as int]@);
        if !seen {
            let header = encode_metric_header(namespace, &metrics[i]);
            s.append(header.as_str());
        }
        s.append(frame.as_str());
        i = i + 1;
        assert(s@ =~= exposition(namespace, buckets@, quantiles@, expired, ms, i as nat));
    }
    s
}

/// What the server answers to one request.
pub struct Reply {
    pub status: u16,
    /// Empty when the answer has no body.
    pub content_type: String,
    pub body: String,
}

pub open spec fn is_scrape(method: Seq<char>, path: Seq<char>) -> bool {
    method == "GET"@ && path == "/metrics"@
}

/// The answer to a request with `method` and `path`: on `GET /metrics` status
/// 200 and the exposition of `metrics` as plain text; otherwise 404, empty.
pub fn handle(
    method: &str,
    path: &str,
    namespace: Option<&str>,
    buckets: &Vec<i64>,
    quantiles: &Vec<i64>,
    expired: bool,
    metrics: &Vec<Metric>,
) -> (r: Reply)
    requires
        forall|i: int| 0 <= i < metrics@.len() ==> (#[trigger] metrics@[i]).wf(),
    ensures
        is_scrape(method@, path@) ==> r.status == 200 && r.content_type@
            == "text/plain; version=0.0.4"@ && r.body@ == exposition(
            namespace,
            buckets@,
            quantiles@,
            expired,
            models(metrics@),
            metrics@.len(),
        ),
        !is_scrape(method@, path@) ==> r.status == 404 && r.content_type@.len() == 0
            && r.body@.len() == 0,
{
    if same_text(method, "GET") && same_text(path, "/metrics") {
        let body = encode_metrics(namespace, buckets, quantiles, expired, metrics);
        Reply { status: 200, content_type: String::from_str("text/plain; version=0.0.4"), body }
    } else {
        Reply { status: 404, content_type: String::new(), body: String::new() }
    }
}

} // verus!
