//! The statistical model types: a historical distribution per
//! (project, metric) pair for a given version, one fresh observation, and the
//! record a comparison produces.
//!
//! Every floating-point statistic is carried as an IEEE 754 binary64 bit
//! pattern (`u64`); timestamps are carried as milliseconds since the Unix
//! epoch (`i64`). Each type has a ghost view over `Seq<char>` and plain
//! values, which the contracts speak of.

use vstd::prelude::*;

use crate::errors::MalformedMeasurementError;
use crate::version::Version;

verus! {

/// One reduced statistical summary for a single command execution. The
/// numeric fields are binary64 bit patterns; `times` holds the raw per-run
/// timings (possibly empty, e.g. when only a summary was persisted).
#[derive(Debug, Clone, PartialEq)]
pub struct Measurement {
    pub command: String,
    pub mean: u64,
    pub stddev: u64,
    pub median: u64,
    pub user: u64,
    pub system: u64,
    pub min: u64,
    pub max: u64,
    pub times: Vec<u64>,
}

/// Ghost image of a `Measurement`.
pub ghost struct MeasurementView {
    pub command: Seq<char>,
    pub mean: u64,
    pub stddev: u64,
    pub median: u64,
    pub user: u64,
    pub system: u64,
    pub min: u64,
    pub max: u64,
    pub times: Seq<u64>,
}

impl View for Measurement {
    type V = MeasurementView;

    open spec fn view(&self) -> MeasurementView {
        MeasurementView {
            command: self.command@,
            mean: self.mean,
            stddev: self.stddev,
            median: self.median,
            user: self.user,
            system: self.system,
            min: self.min,
            max: self.max,
            times: self.times@,
        }
    }
}

impl DeepView for Measurement {
    type V = MeasurementView;

    open spec fn deep_view(&self) -> MeasurementView {
        self@
    }
}

/// A whole timing report: the list of measurements one benchmark run
/// produced.
#[derive(Debug, Clone, PartialEq)]
pub struct Measurements {
    pub results: Vec<Measurement>,
}

/// One fresh observation for a (project, metric) pair.
#[derive(Debug, Clone, PartialEq)]
pub struct Sample {
    pub project: String,
    pub metric: String,
    pub value: u64,
    pub ts: i64,
}

/// Ghost image of a `Sample`.
pub ghost struct SampleView {
    pub project: Seq<char>,
    pub metric: Seq<char>,
    pub value: u64,
    pub ts: i64,
}

impl View for Sample {
    type V = SampleView;

    open spec fn view(&self) -> SampleView {
        SampleView { project: self.project@, metric: self.metric@, value: self.value, ts: self.ts }
    }
}

impl DeepView for Sample {
    type V = SampleView;

    open spec fn deep_view(&self) -> SampleView {
        self@
    }
}

impl Sample {
    /// Builds the observation for `(project, metric)` from a measurement that
    /// is expected to hold exactly one raw timing. Zero raw timings or more
    /// than one both indicate a malformed measurement and are reported as an
    /// error rather than silently degraded to an average or a first value.
    pub fn from_measurement(
        project: String,
        metric: String,
        ts: i64,
        measurement: &Measurement,
    ) -> (r: Result<Sample, MalformedMeasurementError>)
        ensures
            measurement.times@.len() == 1 ==> (r matches Ok(s) && s@ == (SampleView {
                project: project@,
                metric: metric@,
                value: measurement.times@[0],
                ts: ts,
            })),
            measurement.times@.len() != 1 ==> r == Err::<Sample, _>(
                MalformedMeasurementError { times_len: measurement.times@.len() as usize },
            ),
    {
        if measurement.times.len() == 1 {
            let value = measurement.times[0];
            Ok(Sample { project, metric, value, ts })
        } else {
            Err(MalformedMeasurementError { times_len: measurement.times.len() })
        }
    }
}

/// The historical statistics for one (project, metric) pair.
#[derive(Debug, Clone, PartialEq)]
pub struct BaselineMetric {
    pub project: String,
    pub metric: String,
    pub ts: i64,
    pub measurement: Measurement,
}

/// Ghost image of a `BaselineMetric`.
pub ghost struct BaselineMetricView {
    pub project: Seq<char>,
    pub metric: Seq<char>,
    pub ts: i64,
    pub measurement: MeasurementView,
}

impl View for BaselineMetric {
    type V = BaselineMetricView;

    open spec fn view(&self) -> BaselineMetricView {
        BaselineMetricView {
            project: self.project@,
            metric: self.metric@,
            ts: self.ts,
            measurement: self.measurement@,
        }
    }
}

impl DeepView for BaselineMetric {
    type V = BaselineMetricView;

    open spec fn deep_view(&self) -> BaselineMetricView {
        self@
    }
}

/// All historical metrics recorded for one release. The (project, metric)
/// key is expected unique within one baseline; duplicates are a caller
/// error, and the calculator then emits one calculation per occurrence.
#[derive(Debug, Clone, PartialEq)]
pub struct Baseline {
    pub version: Version,
    pub metrics: Vec<BaselineMetric>,
}

/// The outcome of comparing one fresh sample against its matched baseline
/// statistics: the computed threshold and the pass/fail verdict, beside the
/// figures that produced them.
#[derive(Debug, Clone, PartialEq)]
pub struct Calculation {
    pub version: Version,
    pub project: String,
    pub metric: String,
    pub regression: bool,
    pub ts: i64,
    pub sigma: u64,
    pub mean: u64,
    pub stddev: u64,
    pub threshold: u64,
}

/// Ghost image of a `Calculation`.
pub ghost struct CalculationView {
    pub version: Version,
    pub project: Seq<char>,
    pub metric: Seq<char>,
    pub regression: bool,
    pub ts: i64,
    pub sigma: u64,
    pub mean: u64,
    pub stddev: u64,
    pub threshold: u64,
}

impl View for Calculation {
    type V = CalculationView;

    open spec fn view(&self) -> CalculationView {
        CalculationView {
            version: self.version,
            project: self.project@,
            metric: self.metric@,
            regression: self.regression,
            ts: self.ts,
            sigma: self.sigma,
            mean: self.mean,
            stddev: self.stddev,
            threshold: self.threshold,
        }
    }
}

impl DeepView for Calculation {
    type V = CalculationView;

    open spec fn deep_view(&self) -> CalculationView {
        self@
    }
}

} // verus!
