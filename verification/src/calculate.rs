//! Baseline selection and the regression calculation.
//!
//! The calculator is a pure function from (samples, baseline, sigma) to a
//! sequence of calculations: it joins the fresh samples against the selected
//! baseline's per-metric statistics by (project, metric) key and computes a
//! threshold-based verdict for each matched pair.

use vstd::prelude::*;

use crate::errors::CalculateError;
use crate::errors::ConfigurationError;
use crate::ieee::add_bits;
use crate::ieee::bits_add;
use crate::ieee::bits_gt;
use crate::ieee::bits_mul;
use crate::ieee::gt_bits;
use crate::ieee::mul_bits;
use crate::model::Baseline;
use crate::model::BaselineMetricView;
use crate::model::Calculation;
use crate::model::CalculationView;
use crate::model::Sample;
use crate::model::SampleView;
use crate::version::version_le;
use crate::version::version_lt;
use crate::version::Version;

verus! {

/// The confidence multiplier of the current policy: the IEEE 754 binary64
/// bit pattern of 3.0 ("three sigma").
pub const THREE_SIGMA: u64 = 0x4008_0000_0000_0000;

/// The fresh value and timestamp that the sample set holds for
/// (project, metric). When the key occurs more than once, the later sample
/// overwrites the earlier one, so the sequence is searched from its end.
pub open spec fn sample_lookup(
    samples: Seq<SampleView>,
    project: Seq<char>,
    metric: Seq<char>,
) -> Option<(u64, i64)>
    decreases samples.len(),
{
    if samples.len() == 0 {
        None
    } else if samples.last().project == project && samples.last().metric == metric {
        Some((samples.last().value, samples.last().ts))
    } else {
        sample_lookup(samples.drop_last(), project, metric)
    }
}

/// The record emitted for one matched (project, metric) pair:
/// `threshold = mean + sigma * stddev` in binary64 arithmetic, and the
/// verdict is the strict comparison `value > threshold` (equality is not a
/// regression).
pub open spec fn calculation_of(
    version: Version,
    sigma: u64,
    metric: BaselineMetricView,
    value: u64,
    ts: i64,
) -> CalculationView {
    let threshold = add_bits(metric.measurement.mean, mul_bits(sigma, metric.measurement.stddev));
    CalculationView {
        version,
        project: metric.project,
        metric: metric.metric,
        regression: gt_bits(value, threshold),
        ts,
        sigma,
        mean: metric.measurement.mean,
        stddev: metric.measurement.stddev,
        threshold,
    }
}

/// One calculation per baseline metric that has a matching fresh sample, in
/// the iteration order of the baseline's metric collection; metrics with no
/// matching sample are dropped.
pub open spec fn calculations_of(
    samples: Seq<SampleView>,
    version: Version,
    metrics: Seq<BaselineMetricView>,
    sigma: u64,
) -> Seq<CalculationView>
    decreases metrics.len(),
{
    if metrics.len() == 0 {
        Seq::empty()
    } else {
        let prefix = calculations_of(samples, version, metrics.drop_last(), sigma);
        let m = metrics.last();
        match sample_lookup(samples, m.project, m.metric) {
            Some((value, ts)) => prefix.push(calculation_of(version, sigma, m, value, ts)),
            None => prefix,
        }
    }
}

/// Finds the fresh value and timestamp for (project, metric), honoring the
/// last sample in iteration order when the key occurs more than once.
fn lookup_sample(samples: &Vec<Sample>, project: &String, metric: &String) -> (r: Option<
    (u64, i64),
>)
    ensures
        r == sample_lookup(samples.deep_view(), project@, metric@),
{
    let ghost all = samples.deep_view();
    let mut i = samples.len();
    proof {
        assert(all.take(i as int) =~= all);
    }
    while i > 0
        invariant
            i <= samples.len(),
            all == samples.deep_view(),
            sample_lookup(all, project@, metric@) == sample_lookup(
                all.take(i as int),
                project@,
                metric@,
            ),
        decreases i,
    {
        let s = &samples[i - 1];
        proof {
            assert(all.take(i as int).last() == all[i - 1]);
            assert(all[i - 1] == samples@[i - 1]@);
        }
        if s.project == *project && s.metric == *metric {
            return Some((s.value, s.ts));
        }
        proof {
            assert(all.take(i as int).drop_last() =~= all.take(i - 1));
        }
        i -= 1;
    }
    proof {
        assert(all.take(0) =~= Seq::<SampleView>::empty());
    }
    None
}

/// Joins the fresh samples against the baseline's per-metric statistics by
/// (project, metric) key and emits one calculation per matched pair — for
/// non-regressions as well as regressions — in baseline metric order.
pub fn calculate_regressions(samples: &Vec<Sample>, baseline: &Baseline, sigma: u64) -> (r: Vec<
    Calculation,
>)
    ensures
        r.deep_view() == calculations_of(
            samples.deep_view(),
            baseline.version,
            baseline.metrics.deep_view(),
            sigma,
        ),
{
    let ghost ms = baseline.metrics.deep_view();
    let mut out: Vec<Calculation> = Vec::new();
    let mut k: usize = 0;
    proof {
        assert(ms.take(0) =~= Seq::<BaselineMetricView>::empty());
        assert(out.deep_view() =~= Seq::<CalculationView>::empty());
    }
    while k < baseline.metrics.len()
        invariant
            k <= baseline.metrics.len(),
            ms == baseline.metrics.deep_view(),
            out.deep_view() == calculations_of(
                samples.deep_view(),
                baseline.version,
                ms.take(k as int),
                sigma,
            ),
        decreases baseline.metrics.len() - k,
    {
        let m = &baseline.metrics[k];
        let ghost prev = out.deep_view();
        proof {
            assert(ms[k as int] == baseline.metrics@[k as int]@);
            assert(ms.take(k as int + 1).drop_last() =~= ms.take(k as int));
            assert(ms.take(k as int + 1).last() == ms[k as int]);
        }
        match lookup_sample(samples, &m.project, &m.metric) {
            Some((value, ts)) => {
                let mean = m.measurement.mean;
                let stddev = m.measurement.stddev;
                let threshold = bits_add(mean, bits_mul(sigma, stddev));
                let regression = bits_gt(value, threshold);
                let calc = Calculation {
                    version: baseline.version,
                    project: m.project.clone(),
                    metric: m.metric.clone(),
                    regression,
                    ts,
                    sigma,
                    mean,
                    stddev,
                    threshold,
                };
                proof {
                    assert(calc@ == calculation_of(baseline.version, sigma, ms[k as int], value, ts));
                }
                out.push(calc);
                proof {
                    assert(out.deep_view() =~= prev.push(calc@));
                }
            },
            None => {},
        }
        k += 1;
    }
    proof {
        assert(ms.take(baseline.metrics@.len() as int) =~= ms);
    }
    out
}

/// The index that folding left-to-right with "keep current unless strictly
/// greater" leaves: the first index holding the maximum version.
pub open spec fn selected_index(s: Seq<Baseline>) -> int
    decreases s.len(),
{
    if s.len() <= 1 {
        0
    } else {
        let prev = selected_index(s.drop_last());
        if version_lt(s[prev].version, s.last().version) {
            s.len() - 1
        } else {
            prev
        }
    }
}

/// The selected baseline carries the maximum version, and every baseline
/// before it in input order is strictly older — so on an exact version tie
/// the first record seen wins.
pub proof fn lemma_selected_baseline(s: Seq<Baseline>)
    requires
        s.len() > 0,
    ensures
        0 <= selected_index(s) < s.len(),
        forall|i: int|
            0 <= i < s.len() ==> version_le(
                (#[trigger] s[i]).version,
                s[selected_index(s)].version,
            ),
        forall|i: int|
            0 <= i < selected_index(s) ==> version_lt(
                (#[trigger] s[i]).version,
                s[selected_index(s)].version,
            ),
    decreases s.len(),
{
    if s.len() > 1 {
        let p = s.drop_last();
        lemma_selected_baseline(p);
        assert(forall|i: int| 0 <= i < p.len() ==> p[i] == s[i]);
    }
}

/// Tie-break: over two baselines with identical version — whatever their
/// metric sets hold — selection lands on the first one in input order.
pub proof fn lemma_selection_tie_keeps_first(s: Seq<Baseline>)
    requires
        s.len() == 2,
        s[0].version == s[1].version,
    ensures
        selected_index(s) == 0,
{
    let p = s.drop_last();
    assert(p.len() == 1);
    assert(selected_index(p) == 0);
    assert(p[0] == s[0]);
    assert(!version_lt(s[0].version, s.last().version));
}

/// Picks the baseline record with the maximum version by the total order of
/// versions; on an exact tie the earliest record in input order is kept. An
/// empty collection is a configuration error.
pub fn select_baseline(baselines: &Vec<Baseline>) -> (r: Result<&Baseline, ConfigurationError>)
    ensures
        baselines@.len() == 0 ==> r == Err::<&Baseline, _>(ConfigurationError {}),
        baselines@.len() > 0 ==> (r matches Ok(b) && *b == baselines@[selected_index(baselines@)]),
{
    if baselines.len() == 0 {
        return Err(ConfigurationError {});
    }
    let mut best: usize = 0;
    let mut k: usize = 1;
    proof {
        assert(baselines@.take(1).len() == 1);
    }
    while k < baselines.len()
        invariant
            1 <= k <= baselines@.len(),
            best < k,
            best as int == selected_index(baselines@.take(k as int)),
        decreases baselines@.len() - k,
    {
        proof {
            let t = baselines@.take(k as int + 1);
            assert(t.drop_last() =~= baselines@.take(k as int));
            assert(t.last() == baselines@[k as int]);
            assert(t[best as int] == baselines@[best as int]);
        }
        match baselines[best].version.compare(&baselines[k].version) {
            core::cmp::Ordering::Less => {
                best = k;
            },
            _ => {},
        }
        k += 1;
    }
    proof {
        assert(baselines@.take(baselines@.len() as int) =~= baselines@);
    }
    Ok(&baselines[best])
}

/// Selects the newest baseline and runs the calculator against it with the
/// fixed three-sigma confidence multiplier; with no baseline to compare
/// against, the comparison is aborted with a configuration error.
pub fn regressions(baselines: &Vec<Baseline>, samples: &Vec<Sample>) -> (r: Result<
    Vec<Calculation>,
    CalculateError,
>)
    ensures
        baselines@.len() == 0 ==> r == Err::<Vec<Calculation>, _>(
            CalculateError::Configuration(ConfigurationError {}),
        ),
        baselines@.len() > 0 ==> (r matches Ok(out) && out.deep_view() == calculations_of(
            samples.deep_view(),
            baselines@[selected_index(baselines@)].version,
            baselines@[selected_index(baselines@)].metrics.deep_view(),
            THREE_SIGMA,
        )),
{
    match select_baseline(baselines) {
        Ok(baseline) => Ok(calculate_regressions(samples, baseline, THREE_SIGMA)),
        Err(e) => Err(CalculateError::Configuration(e)),
    }
}

/// Unmatched pairs are dropped on both sides: every emitted calculation has
/// a matching fresh sample under its key, and its key is one of the
/// baseline's metric keys — so a baseline metric with no corresponding
/// sample, or a sample with no corresponding baseline metric, produces no
/// calculation.
pub proof fn lemma_unmatched_pairs_dropped(
    samples: Seq<SampleView>,
    version: Version,
    metrics: Seq<BaselineMetricView>,
    sigma: u64,
)
    ensures
        forall|j: int|
            0 <= j < calculations_of(samples, version, metrics, sigma).len()
                ==> sample_lookup(
                samples,
                (#[trigger] calculations_of(samples, version, metrics, sigma)[j]).project,
                calculations_of(samples, version, metrics, sigma)[j].metric,
            ) is Some,
        forall|j: int|
            0 <= j < calculations_of(samples, version, metrics, sigma).len() ==> exists|k: int|
                0 <= k < metrics.len() && (#[trigger] metrics[k]).project == (
                #[trigger] calculations_of(samples, version, metrics, sigma)[j]).project
                    && metrics[k].metric == calculations_of(samples, version, metrics, sigma)[j].metric,
    decreases metrics.len(),
{
    if metrics.len() > 0 {
        lemma_unmatched_pairs_dropped(samples, version, metrics.drop_last(), sigma);
        let out = calculations_of(samples, version, metrics, sigma);
        let prefix = calculations_of(samples, version, metrics.drop_last(), sigma);
        let pm = metrics.drop_last();
        assert forall|j: int| 0 <= j < out.len() implies sample_lookup(
            samples,
            (#[trigger] out[j]).project,
            out[j].metric,
        ) is Some && exists|k: int|
            0 <= k < metrics.len() && (#[trigger] metrics[k]).project == out[j].project
                && metrics[k].metric == out[j].metric by {
            if j < prefix.len() {
                assert(out[j] == prefix[j]);
                let k = choose|k: int|
                    0 <= k < pm.len() && (#[trigger] pm[k]).project == prefix[j].project
                        && pm[k].metric == prefix[j].metric;
                assert(metrics[k] == pm[k]);
            } else {
                let m = metrics.last();
                assert(out[j].project == m.project && out[j].metric == m.metric);
                assert(metrics[metrics.len() - 1] == m);
            }
        }
    }
}

} // verus!
