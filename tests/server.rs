use prometheus_sink::config::{default_summary_quantiles, validate_quantiles, PrometheusSinkConfig};
use prometheus_sink::default_flush_period_secs;
use prometheus_sink::metric::{Metric, MetricKind, MetricValue, Tag};
use prometheus_sink::registry::{BuildError, MergeError, Registry};
use prometheus_sink::render::{encode_metrics, handle};
use prometheus_sink::statistic::DistributionStatistic;

fn counter(name: &str, tags: Vec<Tag>, kind: MetricKind, value: i64) -> Metric {
    Metric { name: name.to_owned(), tags, kind, value: MetricValue::Counter { value } }
}

fn members(name: &str, values: &[&str]) -> Metric {
    Metric {
        name: name.to_owned(),
        tags: vec![],
        kind: MetricKind::Incremental,
        value: MetricValue::Members { values: values.iter().map(|s| s.to_string()).collect() },
    }
}

fn tag(name: &str, value: &str) -> Vec<Tag> {
    vec![Tag { name: name.to_owned(), value: value.to_owned() }]
}

fn render(r: &Registry, expired: bool) -> String {
    encode_metrics(None, &vec![], &vec![], expired, &r.metrics)
}

#[test]
fn scrape_of_empty_registry_is_empty_ok() {
    let r = Registry::new(60, 0).ok().unwrap();
    let reply = handle("GET", "/metrics", None, &vec![], &vec![], false, &r.metrics);
    assert_eq!(reply.status, 200);
    assert_eq!(reply.body, "");
    assert_eq!(reply.content_type, "text/plain; version=0.0.4");
}

#[test]
fn other_requests_are_not_found() {
    let r = Registry::new(60, 0).ok().unwrap();
    let reply = handle("GET", "/other", None, &vec![], &vec![], false, &r.metrics);
    assert_eq!(reply.status, 404);
    assert_eq!(reply.body, "");
    let reply = handle("POST", "/metrics", None, &vec![], &vec![], false, &r.metrics);
    assert_eq!(reply.status, 404);
    assert_eq!(reply.body, "");
}

#[test]
fn header_is_written_once_per_name() {
    let mut r = Registry::new(60, 0).ok().unwrap();
    assert!(r.merge(counter("hits", tag("code", "200"), MetricKind::Absolute, 1_000_000), 0).is_ok());
    assert!(r.merge(counter("hits", tag("code", "500"), MetricKind::Absolute, 2_000_000), 0).is_ok());
    let reply = handle("GET", "/metrics", Some("ns"), &vec![], &vec![], false, &r.metrics);
    assert_eq!(
        reply.body,
        "# HELP ns_hits hits\n# TYPE ns_hits counter\nns_hits{code=\"200\"} 1\nns_hits{code=\"500\"} 2\n"
    );
}

#[test]
fn absolute_update_replaces_in_place() {
    let mut r = Registry::new(60, 0).ok().unwrap();
    assert!(r.merge(counter("a", vec![], MetricKind::Absolute, 1_000_000), 0).is_ok());
    assert!(r.merge(counter("b", vec![], MetricKind::Absolute, 2_000_000), 0).is_ok());
    assert!(r.merge(counter("a", vec![], MetricKind::Absolute, 7_000_000), 0).is_ok());
    assert_eq!(r.metrics.len(), 2);
    assert_eq!(
        render(&r, false),
        "# HELP a a\n# TYPE a counter\na 7\n# HELP b b\n# TYPE b counter\nb 2\n"
    );
}

#[test]
fn incremental_updates_sum_and_move_to_end() {
    let mut r = Registry::new(60, 0).ok().unwrap();
    assert!(r.merge(counter("a", vec![], MetricKind::Incremental, 1_000_000), 0).is_ok());
    assert!(r.merge(counter("b", vec![], MetricKind::Absolute, 2_000_000), 0).is_ok());
    assert!(r.merge(counter("a", vec![], MetricKind::Incremental, 2_500_000), 0).is_ok());
    assert!(r.merge(counter("a", vec![], MetricKind::Incremental, 500_000), 0).is_ok());
    assert_eq!(
        render(&r, false),
        "# HELP b b\n# TYPE b counter\nb 2\n# HELP a a\n# TYPE a counter\na 4\n"
    );
}

#[test]
fn set_counts_distinct_members_and_resets() {
    let mut r = Registry::new(10, 0).ok().unwrap();
    assert!(r.merge(members("users", &["a", "b"]), 1).is_ok());
    assert!(r.merge(members("users", &["b", "c"]), 2).is_ok());
    assert_eq!(render(&r, false), "# HELP users users\n# TYPE users gauge\nusers 3\n");
    assert_eq!(render(&r, true), "# HELP users users\n# TYPE users gauge\nusers 0\n");
    assert!(!r.expired(10));
    assert!(r.expired(11));
    assert!(r.merge(members("users", &["d"]), 20).is_ok());
    assert_eq!(r.last_flush_timestamp, 20);
    assert_eq!(render(&r, false), "# HELP users users\n# TYPE users gauge\nusers 1\n");
}

#[test]
fn mismatched_kinds_are_refused() {
    let mut r = Registry::new(60, 0).ok().unwrap();
    assert!(r.merge(counter("a", vec![], MetricKind::Absolute, 1_000_000), 0).is_ok());
    let res = r.merge(members("a", &["x"]), 0);
    assert!(matches!(res, Err(MergeError::KindMismatch)));
    assert_eq!(render(&r, false), "# HELP a a\n# TYPE a counter\na 1\n");
}

#[test]
fn short_flush_period_is_refused() {
    assert!(matches!(Registry::new(0, 0), Err(BuildError::FlushPeriodTooShort { min: 1 })));
    let mut c = PrometheusSinkConfig::new();
    assert!(c.validate().is_ok());
    c.flush_period_secs = 0;
    assert!(matches!(c.validate(), Err(BuildError::FlushPeriodTooShort { min: 1 })));
}

#[test]
fn out_of_range_quantile_is_refused() {
    assert!(validate_quantiles(&default_summary_quantiles()).is_ok());
    assert!(matches!(validate_quantiles(&vec![500_000, 1_500_000]), Err(BuildError::QuantileOutOfRange)));
    assert!(matches!(validate_quantiles(&vec![-1]), Err(BuildError::QuantileOutOfRange)));
}

#[test]
fn non_increasing_quantiles_are_refused() {
    assert!(matches!(
        validate_quantiles(&vec![900_000, 500_000]),
        Err(BuildError::QuantilesNotIncreasing)
    ));
    assert!(matches!(
        validate_quantiles(&vec![500_000, 500_000]),
        Err(BuildError::QuantilesNotIncreasing)
    ));
    assert!(matches!(
        validate_quantiles(&vec![900_000, 2_000_000, 500_000]),
        Err(BuildError::QuantileOutOfRange)
    ));
    let mut c = PrometheusSinkConfig::new();
    c.quantiles = vec![900_000, 500_000];
    assert!(matches!(c.validate(), Err(BuildError::QuantilesNotIncreasing)));
}

#[test]
fn distribution_statistic_of_weighted_samples() {
    let st = DistributionStatistic::new(
        &vec![1_000_000, 2_000_000, 3_000_000],
        &vec![3, 3, 2],
        &default_summary_quantiles(),
    )
    .unwrap();
    assert_eq!(st.min, 1_000_000);
    assert_eq!(st.max, 3_000_000);
    assert_eq!(st.sum, 15_000_000);
    assert_eq!(st.count, 8);
    assert_eq!(st.avg, 1_875_000);
    assert_eq!(
        st.quantiles,
        vec![
            (500_000, 2_000_000),
            (750_000, 2_000_000),
            (900_000, 3_000_000),
            (950_000, 3_000_000),
            (990_000, 3_000_000)
        ]
    );
    assert!(DistributionStatistic::new(&vec![1], &vec![0], &vec![500_000]).is_none());
}

#[test]
fn clock_based_registry_starts_fresh() {
    let mut r = Registry::new_now(default_flush_period_secs()).ok().unwrap();
    assert!(!r.expired_now());
    assert!(r.last_flush_timestamp > 1_600_000_000);
    assert!(r.merge_now(counter("a", vec![], MetricKind::Incremental, 1_000_000)).is_ok());
    assert_eq!(render(&r, false), "# HELP a a\n# TYPE a counter\na 1\n");
}

#[test]
fn well_formed_metrics_have_sorted_tags_and_distinct_members() {
    let sorted = Metric {
        name: "m".to_owned(),
        tags: vec![
            Tag { name: "a".to_owned(), value: "1".to_owned() },
            Tag { name: "b".to_owned(), value: "2".to_owned() },
        ],
        kind: MetricKind::Absolute,
        value: MetricValue::Counter { value: 0 },
    };
    assert!(sorted.is_well_formed());
    let unsorted = Metric {
        name: "m".to_owned(),
        tags: vec![
            Tag { name: "b".to_owned(), value: "1".to_owned() },
            Tag { name: "a".to_owned(), value: "2".to_owned() },
        ],
        kind: MetricKind::Absolute,
        value: MetricValue::Counter { value: 0 },
    };
    assert!(!unsorted.is_well_formed());
    assert!(members("s", &["x", "y"]).is_well_formed());
    assert!(!members("s", &["x", "y", "x"]).is_well_formed());
}

#[test]
fn split_deltas_render_like_their_sum() {
    let mut a = Registry::new(60, 0).ok().unwrap();
    let mut b = Registry::new(60, 0).ok().unwrap();
    for r in [&mut a, &mut b] {
        assert!(r.merge(counter("x", vec![], MetricKind::Incremental, 1_000_000), 0).is_ok());
        assert!(r.merge(counter("y", vec![], MetricKind::Absolute, 5_000_000), 0).is_ok());
    }
    assert!(a.merge(counter("x", vec![], MetricKind::Incremental, 2_000_000), 0).is_ok());
    assert!(a.merge(counter("x", vec![], MetricKind::Incremental, 250_000), 0).is_ok());
    assert!(b.merge(counter("x", vec![], MetricKind::Incremental, 2_250_000), 0).is_ok());
    assert_eq!(render(&a, false), render(&b, false));
    assert_eq!(render(&a, false), "# HELP y y\n# TYPE y counter\ny 5\n# HELP x x\n# TYPE x counter\nx 3.25\n");
}

#[test]
fn scrape_renders_the_registry() {
    let mut r = Registry::new(60, 0).ok().unwrap();
    assert!(r.merge(counter("hits", tag("code", "200"), MetricKind::Absolute, 10_000_000), 0).is_ok());
    let reply = r.scrape("GET", "/metrics", Some("vector"), &vec![], &vec![], false);
    assert_eq!(reply.status, 200);
    assert_eq!(
        reply.body,
        "# HELP vector_hits hits\n# TYPE vector_hits counter\nvector_hits{code=\"200\"} 10\n"
    );
    let reply = r.scrape("GET", "/", None, &vec![], &vec![], false);
    assert_eq!(reply.status, 404);
    assert_eq!(reply.body, "");
}
