use prometheus_sink::config::default_summary_quantiles;
use prometheus_sink::encode::{encode_metric_header, encode_tags, encode_tags_with_extra};
use prometheus_sink::metric::{Metric, MetricKind, MetricValue, StatisticKind, Tag};
use prometheus_sink::render::encode_metric_datum;

fn tags() -> Vec<Tag> {
    vec![Tag { name: "code".to_owned(), value: "200".to_owned() }]
}

fn metric(name: &str, tags: Vec<Tag>, value: MetricValue) -> Metric {
    Metric { name: name.to_owned(), tags, kind: MetricKind::Absolute, value }
}

#[test]
fn test_encode_counter() {
    let metric = metric("hits", tags(), MetricValue::Counter { value: 10_000_000 });

    let header = encode_metric_header(Some("vector"), &metric);
    let frame = encode_metric_datum(Some("vector"), &vec![], &vec![], false, &metric);

    assert_eq!(header, "# HELP vector_hits hits\n# TYPE vector_hits counter\n".to_owned());
    assert_eq!(frame, "vector_hits{code=\"200\"} 10\n".to_owned());
}

#[test]
fn test_encode_gauge() {
    let metric = metric("temperature", tags(), MetricValue::Gauge { value: -1_100_000 });

    let header = encode_metric_header(Some("vector"), &metric);
    let frame = encode_metric_datum(Some("vector"), &vec![], &vec![], false, &metric);

    assert_eq!(
        header,
        "# HELP vector_temperature temperature\n# TYPE vector_temperature gauge\n".to_owned()
    );
    assert_eq!(frame, "vector_temperature{code=\"200\"} -1.1\n".to_owned());
}

#[test]
fn test_encode_set() {
    let metric = metric("users", vec![], MetricValue::Members { values: vec!["foo".into()] });

    let header = encode_metric_header(None, &metric);
    let frame = encode_metric_datum(None, &vec![], &vec![], false, &metric);

    assert_eq!(header, "# HELP users users\n# TYPE users gauge\n".to_owned());
    assert_eq!(frame, "users 1\n".to_owned());
}

#[test]
fn test_encode_expired_set() {
    let metric = metric("users", vec![], MetricValue::Members { values: vec!["foo".into()] });

    let header = encode_metric_header(None, &metric);
    let frame = encode_metric_datum(None, &vec![], &vec![], true, &metric);

    assert_eq!(header, "# HELP users users\n# TYPE users gauge\n".to_owned());
    assert_eq!(frame, "users 0\n".to_owned());
}

#[test]
fn test_encode_distribution() {
    let metric = metric(
        "requests",
        vec![],
        MetricValue::Distribution {
            values: vec![1_000_000, 2_000_000, 3_000_000],
            sample_rates: vec![3, 3, 2],
            statistic: StatisticKind::Histogram,
        },
    );

    let header = encode_metric_header(None, &metric);
    let frame =
        encode_metric_datum(None, &vec![0, 2_500_000, 5_000_000], &vec![], false, &metric);

    assert_eq!(header, "# HELP requests requests\n# TYPE requests histogram\n".to_owned());
    assert_eq!(frame, "requests_bucket{le=\"0\"} 0\nrequests_bucket{le=\"2.5\"} 6\nrequests_bucket{le=\"5\"} 8\nrequests_bucket{le=\"+Inf\"} 8\nrequests_sum 15\nrequests_count 8\n".to_owned());
}

#[test]
fn test_encode_histogram() {
    let metric = metric(
        "requests",
        vec![],
        MetricValue::AggregatedHistogram {
            buckets: vec![1_000_000, 2_100_000, 3_000_000],
            counts: vec![1, 2, 3],
            count: 6,
            sum: 12_500_000,
        },
    );

    let header = encode_metric_header(None, &metric);
    let frame = encode_metric_datum(None, &vec![], &vec![], false, &metric);

    assert_eq!(header, "# HELP requests requests\n# TYPE requests histogram\n".to_owned());
    assert_eq!(frame, "requests_bucket{le=\"1\"} 1\nrequests_bucket{le=\"2.1\"} 2\nrequests_bucket{le=\"3\"} 3\nrequests_bucket{le=\"+Inf\"} 6\nrequests_sum 12.5\nrequests_count 6\n".to_owned());
}

#[test]
fn test_encode_summary() {
    let metric = metric(
        "requests",
        tags(),
        MetricValue::AggregatedSummary {
            quantiles: vec![10_000, 500_000, 990_000],
            values: vec![1_500_000, 2_000_000, 3_000_000],
            count: 6,
            sum: 12_000_000,
        },
    );

    let header = encode_metric_header(None, &metric);
    let frame = encode_metric_datum(None, &vec![], &vec![], false, &metric);

    assert_eq!(header, "# HELP requests requests\n# TYPE requests summary\n".to_owned());
    assert_eq!(frame, "requests{code=\"200\",quantile=\"0.01\"} 1.5\nrequests{code=\"200\",quantile=\"0.5\"} 2\nrequests{code=\"200\",quantile=\"0.99\"} 3\nrequests_sum{code=\"200\"} 12\nrequests_count{code=\"200\"} 6\n".to_owned());
}

#[test]
fn test_encode_distribution_summary() {
    let metric = metric(
        "requests",
        tags(),
        MetricValue::Distribution {
            values: vec![1_000_000, 2_000_000, 3_000_000],
            sample_rates: vec![3, 3, 2],
            statistic: StatisticKind::Summary,
        },
    );

    let header = encode_metric_header(None, &metric);
    let frame =
        encode_metric_datum(None, &vec![], &default_summary_quantiles(), false, &metric);

    assert_eq!(header, "# HELP requests requests\n# TYPE requests summary\n".to_owned());
    assert_eq!(frame, "requests{code=\"200\",quantile=\"0.5\"} 2\nrequests{code=\"200\",quantile=\"0.75\"} 2\nrequests{code=\"200\",quantile=\"0.9\"} 3\nrequests{code=\"200\",quantile=\"0.95\"} 3\nrequests{code=\"200\",quantile=\"0.99\"} 3\nrequests_sum{code=\"200\"} 15\nrequests_count{code=\"200\"} 8\nrequests_min{code=\"200\"} 1\nrequests_max{code=\"200\"} 3\nrequests_avg{code=\"200\"} 1.875\n".to_owned());
}

#[test]
fn empty_distribution_summary_is_zeroed() {
    let metric = metric(
        "requests",
        vec![],
        MetricValue::Distribution {
            values: vec![],
            sample_rates: vec![],
            statistic: StatisticKind::Summary,
        },
    );
    let frame =
        encode_metric_datum(None, &vec![], &default_summary_quantiles(), false, &metric);
    assert_eq!(frame, "requests_sum 0\nrequests_count 0\n");
}

#[test]
fn incremental_metric_is_not_rendered() {
    let mut m = metric("hits", vec![], MetricValue::Counter { value: 1_000_000 });
    m.kind = MetricKind::Incremental;
    assert_eq!(encode_metric_datum(None, &vec![], &vec![], false, &m), "");
}

#[test]
fn tags_are_sorted_with_extra_label() {
    let tags = vec![
        Tag { name: "a".to_owned(), value: "1".to_owned() },
        Tag { name: "z".to_owned(), value: "2".to_owned() },
    ];
    assert_eq!(encode_tags(&tags), "{a=\"1\",z=\"2\"}");
    assert_eq!(encode_tags(&vec![]), "");
    assert_eq!(
        encode_tags_with_extra(&tags, "le".to_owned(), "0.5".to_owned()),
        "{a=\"1\",le=\"0.5\",z=\"2\"}"
    );
    assert_eq!(
        encode_tags_with_extra(&tags, "zz".to_owned(), "x".to_owned()),
        "{a=\"1\",z=\"2\",zz=\"x\"}"
    );
    assert_eq!(encode_tags_with_extra(&vec![], "le".to_owned(), "+Inf".to_owned()), "{le=\"+Inf\"}");
}

#[test]
fn fixed_point_values_render_shortest() {
    let m = metric("g", vec![], MetricValue::Gauge { value: 1 });
    assert_eq!(encode_metric_datum(None, &vec![], &vec![], false, &m), "g 0.000001\n");
    let m = metric("g", vec![], MetricValue::Gauge { value: -500_000 });
    assert_eq!(encode_metric_datum(None, &vec![], &vec![], false, &m), "g -0.5\n");
    let m = metric("g", vec![], MetricValue::Gauge { value: 0 });
    assert_eq!(encode_metric_datum(None, &vec![], &vec![], false, &m), "g 0\n");
}

#[test]
fn histogram_buckets_are_cumulative() {
    let m = metric(
        "lat",
        vec![],
        MetricValue::Distribution {
            values: vec![500_000, 1_500_000, 1_000_000, 9_000_000],
            sample_rates: vec![1, 2, 4, 1],
            statistic: StatisticKind::Histogram,
        },
    );
    let frame = encode_metric_datum(None, &vec![1_000_000, 2_000_000, 5_000_000], &vec![], false, &m);
    assert_eq!(frame, "lat_bucket{le=\"1\"} 5\nlat_bucket{le=\"2\"} 7\nlat_bucket{le=\"5\"} 7\nlat_bucket{le=\"+Inf\"} 8\nlat_sum 16.5\nlat_count 8\n");
}
