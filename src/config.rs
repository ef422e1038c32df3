use vstd::prelude::*;
use vstd::string::StringExecFns;
use crate::registry::{BuildError, MIN_FLUSH_PERIOD_SECS};
use crate::text::SCALE;

verus! {

/// Settings of the exposition endpoint. Bounds and quantile levels are in
/// millionths.
pub struct PrometheusSinkConfig {
    pub namespace: Option<String>,
    /// Listen address, `host:port`.
    pub address: String,
    pub buckets: Vec<i64>,
    pub quantiles: Vec<i64>,
    pub flush_period_secs: u64,
}

/// Bucket bounds used when none are configured: 0.005 to 10.
pub fn default_histogram_buckets() -> (r: Vec<i64>)
    ensures
        r@ == default_histogram_buckets_spec(),
{
    vec![5000, 10000, 25000, 50000, 100000, 250000, 500000, 1000000, 2500000, 5000000, 10000000]
}

/// Quantile levels used when none are configured: 0.5, 0.75, 0.9, 0.95, 0.99.
pub fn default_summary_quantiles() -> (r: Vec<i64>)
    ensures
        r@ == default_summary_quantiles_spec(),
{
    vec![500000, 750000, 900000, 950000, 990000]
}

/// Listen address used when none is configured.
pub fn default_address() -> (r: String)
    ensures
        r@ == "0.0.0.0:9598"@,
{
    String::from_str("0.0.0.0:9598")
}

/// Every level lies within 0 and 1.
pub open spec fn quantiles_in_range(qs: Seq<i64>) -> bool {
    forall|i: int| 0 <= i < qs.len() ==> 0 <= #[trigger] qs[i] <= SCALE
}

/// Each level is strictly below the next.
pub open spec fn quantiles_increasing(qs: Seq<i64>) -> bool {
    forall|i: int| 1 <= i < qs.len() ==> qs[i - 1] < #[trigger] qs[i]
}

pub open spec fn quantiles_valid(qs: Seq<i64>) -> bool {
    quantiles_in_range(qs) && quantiles_increasing(qs)
}

/// Accepts quantile levels within 0 and 1, each strictly below the next.
/// A level out of range is reported before an order fault.
pub fn validate_quantiles(quantiles: &Vec<i64>) -> (r: Result<(), BuildError>)
    ensures
        r is Ok <==> quantiles_valid(quantiles@),
        !quantiles_in_range(quantiles@) ==> (r matches Err(BuildError::QuantileOutOfRange)),
        quantiles_in_range(quantiles@) && !quantiles_increasing(quantiles@) ==> (r matches Err(
            BuildError::QuantilesNotIncreasing,
        )),
{
    let mut i: usize = 0;
    while i < quantiles.len()
        invariant
            i <= quantiles.len(),
            forall|j: int| 0 <= j < i ==> 0 <= #[trigger] quantiles@[j] <= SCALE,
        decreases quantiles.len() - i,
    {
        if quantiles[i] < 0 || quantiles[i] > SCALE as i64 {
            return Err(BuildError::QuantileOutOfRange);
        }
        i = i + 1;
    }
    let mut j: usize = 1;
    while j < quantiles.len()
        invariant
            1 <= j,
            quantiles_in_range(quantiles@),
            forall|l: int| 1 <= l < j && l < quantiles@.len() ==> quantiles@[l - 1] < #[trigger] quantiles@[l],
        decreases quantiles.len() - j,
    {
        if quantiles[j - 1] >= quantiles[j] {
            return Err(BuildError::QuantilesNotIncreasing);
        }
        j = j + 1;
    }
    Ok(())
}

impl PrometheusSinkConfig {
    /// Default settings: no namespace, the default address, buckets and
    /// levels, and the default flush period.
    pub fn new() -> (r: PrometheusSinkConfig)
        ensures
            r.namespace is None,
            r.address@ == "0.0.0.0:9598"@,
            r.buckets@ == default_histogram_buckets_spec(),
            r.quantiles@ == default_summary_quantiles_spec(),
            r.flush_period_secs == 60,
    {
        PrometheusSinkConfig {
            namespace: None,
            address: default_address(),
            buckets: default_histogram_buckets(),
            quantiles: default_summary_quantiles(),
            flush_period_secs: crate::default_flush_period_secs(),
        }
    }

    /// Checks the settings before the endpoint starts: the flush period must
    /// reach the minimum, and the quantile levels lie within 0 and 1, each
    /// strictly below the next.
    pub fn validate(&self) -> (r: Result<(), BuildError>)
        ensures
            r is Ok <==> self.flush_period_secs >= MIN_FLUSH_PERIOD_SECS && quantiles_valid(
                self.quantiles@,
            ),
            self.flush_period_secs < MIN_FLUSH_PERIOD_SECS ==> (r matches Err(
                BuildError::FlushPeriodTooShort { min },
            ) && min == MIN_FLUSH_PERIOD_SECS),
            self.flush_period_secs >= MIN_FLUSH_PERIOD_SECS && !quantiles_in_range(self.quantiles@)
                ==> (r matches Err(BuildError::QuantileOutOfRange)),
            self.flush_period_secs >= MIN_FLUSH_PERIOD_SECS && quantiles_in_range(self.quantiles@)
                && !quantiles_increasing(self.quantiles@) ==> (r matches Err(
                BuildError::QuantilesNotIncreasing,
            )),
    {
        if self.flush_period_secs < MIN_FLUSH_PERIOD_SECS {
            return Err(BuildError::FlushPeriodTooShort { min: MIN_FLUSH_PERIOD_SECS });
        }
        validate_quantiles(&self.quantiles)
    }
}

pub open spec fn default_summary_quantiles_spec() -> Seq<i64> {
    seq![500000i64, 750000, 900000, 950000, 990000]
}

pub open spec fn default_histogram_buckets_spec() -> Seq<i64> {
    seq![5000i64, 10000, 25000, 50000, 100000, 250000, 500000, 1000000, 2500000, 5000000, 10000000]
}

} // verus!
