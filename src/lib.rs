// A metrics exposition endpoint: a registry that merges typed, tagged metric
// updates into one entry per series, and a renderer of the registry in the
// plain-text exposition format read by pull-based monitoring.
use vstd::prelude::*;

pub mod config;
pub mod encode;
pub mod laws;
pub mod metric;
pub mod registry;
pub mod render;
pub mod statistic;
pub mod text;

verus! {

/// Seconds after which the members of set metrics are forgotten, unless configured otherwise.
pub fn default_flush_period_secs() -> (r: u64)
    ensures
        r == 60,
{
    60
}

} // verus!
