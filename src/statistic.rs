use vstd::prelude::*;
use crate::text::SCALE;

verus! {

/// Number of (sample, weight) pairs: the shorter of the two sequences.
pub open spec fn pair_count(vs: Seq<i64>, ws: Seq<u32>) -> nat {
    if vs.len() <= ws.len() {
        vs.len()
    } else {
        ws.len()
    }
}

/// Total weight of the first `n` samples.
pub open spec fn total_weight(ws: Seq<u32>, n: nat) -> nat
    decreases n,
{
    if n == 0 {
        0
    } else {
        total_weight(ws, (n - 1) as nat) + ws[n - 1] as nat
    }
}

/// Total weight of the first `n` samples whose value is at most `x`.
pub open spec fn weight_le(vs: Seq<i64>, ws: Seq<u32>, n: nat, x: int) -> nat
    decreases n,
{
    if n == 0 {
        0
    } else {
        weight_le(vs, ws, (n - 1) as nat, x) + if vs[n - 1] <= x {
            ws[n - 1] as nat
        } else {
            0
        }
    }
}

pub open spec fn clip128(x: int) -> int {
    if x > i128::MAX {
        i128::MAX as int
    } else if x < i128::MIN {
        i128::MIN as int
    } else {
        x
    }
}

/// Sum of value times weight over the first `n` samples, each partial sum held
/// within the range of `i128`.
pub open spec fn weighted_sum(vs: Seq<i64>, ws: Seq<u32>, n: nat) -> int
    decreases n,
{
    if n == 0 {
        0
    } else {
        clip128(weighted_sum(vs, ws, (n - 1) as nat) + vs[n - 1] * ws[n - 1])
    }
}

/// Quotient rounded toward zero.
pub open spec fn trunc_div(a: int, b: int) -> int {
    if a >= 0 {
        a / b
    } else {
        -((-a) / b)
    }
}

/// Some sample of positive weight has value `r`.
pub open spec fn observed(vs: Seq<i64>, ws: Seq<u32>, n: nat, r: int) -> bool {
    exists|i: int| 0 <= i < n && ws[i] > 0 && vs[i] == r
}

pub open spec fn is_min(vs: Seq<i64>, ws: Seq<u32>, n: nat, r: int) -> bool {
    &&& observed(vs, ws, n, r)
    &&& forall|i: int| 0 <= i < n && ws[i] > 0 ==> r <= #[trigger] vs[i]
}

pub open spec fn is_max(vs: Seq<i64>, ws: Seq<u32>, n: nat, r: int) -> bool {
    &&& observed(vs, ws, n, r)
    &&& forall|i: int| 0 <= i < n && ws[i] > 0 ==> #[trigger] vs[i] <= r
}

/// `r` is the `k`-th smallest (from zero) of the samples, each repeated by its
/// weight: the least observed value with more than `k` samples at or below it.
pub open spec fn is_kth(vs: Seq<i64>, ws: Seq<u32>, n: nat, k: nat, r: int) -> bool {
    &&& observed(vs, ws, n, r)
    &&& weight_le(vs, ws, n, r) > k
    &&& forall|i: int|
        0 <= i < n && ws[i] > 0 && weight_le(vs, ws, n, #[trigger] vs[i] as int) > k ==> r <= vs[i]
}

pub open spec fn min_of(vs: Seq<i64>, ws: Seq<u32>, n: nat) -> int {
    choose|r: int| is_min(vs, ws, n, r)
}

pub open spec fn max_of(vs: Seq<i64>, ws: Seq<u32>, n: nat) -> int {
    choose|r: int| is_max(vs, ws, n, r)
}

pub open spec fn kth_of(vs: Seq<i64>, ws: Seq<u32>, n: nat, k: nat) -> int {
    choose|r: int| is_kth(vs, ws, n, k, r)
}

/// Rank of the quantile level `p` (millionths, held within 0 and 1) among
/// `count` samples: `p * count - 1`, rounded half away from zero, and at least 0.
pub open spec fn quantile_rank(p: int, count: nat) -> nat {
    let pc = if p < 0 {
        0
    } else if p > SCALE {
        SCALE as int
    } else {
        p
    };
    let t = pc * count;
    if t < SCALE {
        0
    } else {
        ((t - SCALE + SCALE / 2) / (SCALE as int)) as nat
    }
}

/// Order statistics of a weighted sample distribution; numbers in millionths.
pub struct DistributionStatistic {
    pub min: i64,
    pub max: i64,
    pub sum: i128,
    pub count: u128,
    pub avg: i128,
    /// Each requested level with its value.
    pub quantiles: Vec<(i64, i64)>,
}

/// `st` is the statistic of the samples `vs` weighted by `ws` for the levels `qs`.
pub open spec fn statistic_of(
    vs: Seq<i64>,
    ws: Seq<u32>,
    qs: Seq<i64>,
    st: DistributionStatistic,
) -> bool {
    let n = pair_count(vs, ws);
    &&& st.count == total_weight(ws, n)
    &&& st.sum == weighted_sum(vs, ws, n)
    &&& st.avg == trunc_div(st.sum as int, st.count as int)
    &&& st.min == min_of(vs, ws, n)
    &&& st.max == max_of(vs, ws, n)
    &&& st.quantiles@.len() == qs.len()
    &&& forall|j: int|
        0 <= j < qs.len() ==> (#[trigger] st.quantiles@[j]).0 == qs[j] && st.quantiles@[j].1
            == kth_of(vs, ws, n, quantile_rank(qs[j] as int, st.count as nat))
}

pub proof fn lemma_weight_le_monotone(vs: Seq<i64>, ws: Seq<u32>, n: nat, x: int, y: int)
    requires
        x <= y,
        n <= vs.len(),
        n <= ws.len(),
    ensures
        weight_le(vs, ws, n, x) <= weight_le(vs, ws, n, y),
        weight_le(vs, ws, n, y) <= total_weight(ws, n),
    decreases n,
{
    if n > 0 {
        lemma_weight_le_monotone(vs, ws, (n - 1) as nat, x, y);
    }
}

proof fn lemma_weight_le_all(vs: Seq<i64>, ws: Seq<u32>, n: nat, x: int)
    requires
        n <= vs.len(),
        n <= ws.len(),
        forall|i: int| 0 <= i < n && ws[i] > 0 ==> #[trigger] vs[i] <= x,
    ensures
        weight_le(vs, ws, n, x) == total_weight(ws, n),
    decreases n,
{
    if n > 0 {
        lemma_weight_le_all(vs, ws, (n - 1) as nat, x);
    }
}

proof fn lemma_total_zero(ws: Seq<u32>, n: nat)
    requires
        n <= ws.len(),
        forall|i: int| 0 <= i < n ==> ws[i] == 0,
    ensures
        total_weight(ws, n) == 0,
    decreases n,
{
    if n > 0 {
        lemma_total_zero(ws, (n - 1) as nat);
    }
}

proof fn lemma_unique(vs: Seq<i64>, ws: Seq<u32>, n: nat, k: nat, r: int)
    requires
        is_kth(vs, ws, n, k, r),
    ensures
        kth_of(vs, ws, n, k) == r,
{
    let c = kth_of(vs, ws, n, k);
    assert(is_kth(vs, ws, n, k, c));
    let i = choose|i: int| 0 <= i < n && ws[i] > 0 && vs[i] == r;
    let j = choose|j: int| 0 <= j < n && ws[j] > 0 && vs[j] == c;
    assert(weight_le(vs, ws, n, vs[i] as int) > k);
    assert(weight_le(vs, ws, n, vs[j] as int) > k);
}

pub(crate) fn weight_at_most(values: &Vec<i64>, rates: &Vec<u32>, n: usize, x: i64) -> (r: u128)
    requires
        n <= values.len(),
        n <= rates.len(),
    ensures
        r == weight_le(values@, rates@, n as nat, x as int),
{
    let mut acc: u128 = 0;
    let mut i: usize = 0;
    while i < n
        invariant
            n <= values.len(),
            n <= rates.len(),
            i <= n,
            acc == weight_le(values@, rates@, i as nat, x as int),
            acc <= i * 0xffff_ffffu128,
        decreases n - i,
    {
        if values[i] <= x {
            acc = acc + rates[i] as u128;
        }
        i = i + 1;
    }
    acc
}

pub(crate) fn total_of(rates: &Vec<u32>, n: usize) -> (r: u128)
    requires
        n <= rates.len(),
    ensures
        r == total_weight(rates@, n as nat),
        r <= n * 0xffff_ffffu128,
{
    let mut acc: u128 = 0;
    let mut i: usize = 0;
    while i < n
        invariant
            n <= rates.len(),
            i <= n,
            acc == total_weight(rates@, i as nat),
            acc <= i * 0xffff_ffffu128,
        decreases n - i,
    {
        acc = acc + rates[i] as u128;
        i = i + 1;
    }
    acc
}

pub(crate) fn sum_of(values: &Vec<i64>, rates: &Vec<u32>, n: usize) -> (r: i128)
    requires
        n <= values.len(),
        n <= rates.len(),
    ensures
        r == weighted_sum(values@, rates@, n as nat),
{
    let mut acc: i128 = 0;
    let mut i: usize = 0;
    while i < n
        invariant
            n <= values.len(),
            n <= rates.len(),
            i <= n,
            acc == weighted_sum(values@, rates@, i as nat),
        decreases n - i,
    {
        let v = values[i];
        let w = rates[i];
        assert(-0x8000_0000_0000_0000 * 0xffff_ffff <= (v as int) * (w as int) <= 0x7fff_ffff_ffff_ffff
            * 0xffff_ffff) by (nonlinear_arith)
            requires
                -0x8000_0000_0000_0000 <= v <= 0x7fff_ffff_ffff_ffff,
                0 <= w <= 0xffff_ffff,
        ;
        let term: i128 = (v as i128) * (w as i128);
        if term > 0 && acc > i128::MAX - term {
            acc = i128::MAX;
        } else if term < 0 && acc < i128::MIN - term {
            acc = i128::MIN;
        } else {
            acc = acc + term;
        }
        i = i + 1;
    }
    acc
}

fn average(sum: i128, count: u128) -> (r: i128)
    requires
        count > 0,
    ensures
        r == trunc_div(sum as int, count as int),
{
    if sum >= 0 {
        (sum as u128 / count) as i128
    } else {
        let a: u128 = if sum == i128::MIN {
            0x8000_0000_0000_0000_0000_0000_0000_0000u128
        } else {
            (-sum) as u128
        };
        let q: u128 = a / count;
        if q == 0x8000_0000_0000_0000_0000_0000_0000_0000u128 {
            i128::MIN
        } else {
            -(q as i128)
        }
    }
}

fn rank(p: i64, count: u128) -> (r: u128)
    requires
        count <= 0xffff_ffff_ffff_ffff_ffff_ffffu128,
    ensures
        r == quantile_rank(p as int, count as nat),
        count > 0 ==> r < count,
{
    let pc: u128 = if p < 0 {
        0
    } else if p as u64 > SCALE {
        SCALE as u128
    } else {
        p as u128
    };
    assert(pc * count <= 1000000 * 0xffff_ffff_ffff_ffff_ffff_ffffu128) by (nonlinear_arith)
        requires
            pc <= 1000000,
            count <= 0xffff_ffff_ffff_ffff_ffff_ffffu128,
    ;
    let t: u128 = pc * count;
    if t < SCALE as u128 {
        0
    } else {
        let r = (t - SCALE as u128 + SCALE as u128 / 2) / SCALE as u128;
        assert(count > 0 ==> r < count) by (nonlinear_arith)
            requires
                t == pc * count,
                pc <= 1000000,
                t >= 1000000,
                r == (t - 1000000 + 500000) / 1000000,
        ;
        r
    }
}

impl DistributionStatistic {
    /// The statistic of the samples `values` weighted by `sample_rates`, for the
    /// quantile levels `quantiles`; `None` when the total weight is zero.
    pub fn new(values: &Vec<i64>, sample_rates: &Vec<u32>, quantiles: &Vec<i64>) -> (r: Option<
        DistributionStatistic,
    >)
        ensures
            r is None <==> total_weight(
                sample_rates@,
                pair_count(values@, sample_rates@),
            ) == 0,
            r matches Some(st) ==> statistic_of(values@, sample_rates@, quantiles@, st),
    {
        let ghost vs = values@;
        let ghost ws = sample_rates@;
        let n: usize = if values.len() <= sample_rates.len() {
            values.len()
        } else {
            sample_rates.len()
        };
        let count = total_of(sample_rates, n);
        if count == 0 {
            return None;
        }
        let mut min: i64 = 0;
        let mut max: i64 = 0;
        let mut max_idx: usize = 0;
        let mut found = false;
        let mut i: usize = 0;
        while i < n
            invariant
                n == pair_count(vs, ws),
                vs == values@,
                ws == sample_rates@,
                i <= n,
                found ==> max_idx < i && ws[max_idx as int] > 0 && vs[max_idx as int] == max,
                found ==> observed(vs, ws, n as nat, min as int),
                found ==> forall|j: int| 0 <= j < i && ws[j] > 0 ==> min <= #[trigger] vs[j] <= max,
                !found ==> forall|j: int| 0 <= j < i ==> ws[j] == 0,
            decreases n - i,
        {
            if sample_rates[i] > 0 {
                let v = values[i];
                if !found || v < min {
                    min = v;
                }
                if !found || v > max {
                    max = v;
                    max_idx = i;
                }
                found = true;
            }
            i = i + 1;
        }
        if !found {
            proof {
                lemma_total_zero(ws, n as nat);
            }
            return None;
        }
        proof {
            assert(is_min(vs, ws, n as nat, min as int));
            assert(is_max(vs, ws, n as nat, max as int));
            let m = min_of(vs, ws, n as nat);
            let x = max_of(vs, ws, n as nat);
            let mi = choose|i: int| 0 <= i < n && ws[i] > 0 && vs[i] == m;
            let xi = choose|i: int| 0 <= i < n && ws[i] > 0 && vs[i] == x;
            assert(vs[mi] >= min && vs[xi] <= max);
            lemma_weight_le_all(vs, ws, n as nat, max as int);
        }
        let sum = sum_of(values, sample_rates, n);
        let avg = average(sum, count);
        let mut out: Vec<(i64, i64)> = Vec::new();
        let mut j: usize = 0;
        while j < quantiles.len()
            invariant
                n == pair_count(vs, ws),
                vs == values@,
                ws == sample_rates@,
                count == total_weight(ws, n as nat),
                count > 0,
                count <= n * 0xffff_ffffu128,
                max_idx < n && ws[max_idx as int] > 0 && vs[max_idx as int] == max,
                weight_le(vs, ws, n as nat, max as int) == count,
                j <= quantiles.len(),
                out@.len() == j,
                forall|l: int|
                    0 <= l < j ==> (#[trigger] out@[l]).0 == quantiles@[l] && out@[l].1 == kth_of(
                        vs,
                        ws,
                        n as nat,
                        quantile_rank(quantiles@[l] as int, count as nat),
                    ),
            decreases quantiles.len() - j,
        {
            let k = rank(quantiles[j], count);
            let mut best: i64 = 0;
            let mut have = false;
            let mut i: usize = 0;
            while i < n
                invariant
                    n == pair_count(vs, ws),
                    vs == values@,
                    ws == sample_rates@,
                    k < count,
                    max_idx < n && ws[max_idx as int] > 0 && vs[max_idx as int] == max,
                    weight_le(vs, ws, n as nat, max as int) == count,
                    i <= n,
                    i > max_idx ==> have,
                    have ==> observed(vs, ws, n as nat, best as int) && weight_le(
                        vs,
                        ws,
                        n as nat,
                        best as int,
                    ) > k,
                    forall|l: int|
                        0 <= l < i && ws[l] > 0 && weight_le(vs, ws, n as nat, #[trigger] vs[l] as int)
                            > k ==> have && best <= vs[l],
                decreases n - i,
            {
                if sample_rates[i] > 0 {
                    let v = values[i];
                    let le = weight_at_most(values, sample_rates, n, v);
                    if le > k && (!have || v < best) {
                        best = v;
                        have = true;
                    }
                }
                i = i + 1;
            }
            proof {
                assert(is_kth(vs, ws, n as nat, k as nat, best as int));
                lemma_unique(vs, ws, n as nat, k as nat, best as int);
            }
            out.push((quantiles[j], best));
            j = j + 1;
        }
        Some(DistributionStatistic { min, max, sum, count, avg, quantiles: out })
    }
}

} // verus!
