use chrono::Utc;
use runner::calculate::{calculate_regressions, regressions, select_baseline, THREE_SIGMA};
use runner::errors::{CalculateError, ConfigurationError, MalformedMeasurementError};
use runner::model::{Baseline, BaselineMetric, Calculation, Measurement, Sample};
use runner::version::Version;

fn summary(mean: f64, stddev: f64) -> Measurement {
    Measurement {
        command: "some command".to_owned(),
        mean: mean.to_bits(),
        stddev: stddev.to_bits(),
        median: 1.00f64.to_bits(),
        user: 1.00f64.to_bits(),
        system: 1.00f64.to_bits(),
        min: 0.00f64.to_bits(),
        max: 2.00f64.to_bits(),
        times: vec![],
    }
}

fn now_millis() -> i64 {
    Utc::now().timestamp_millis()
}

#[test]
fn detects_3sigma_regression() {
    let project = "test".to_owned();
    let metric = "detects 3 sigma".to_owned();

    let measurement = summary(1.00, 0.1);

    let baseline_metric = BaselineMetric {
        project: project.clone(),
        metric: metric.clone(),
        ts: now_millis(),
        measurement,
    };

    let baseline = Baseline { version: Version::new(9, 9, 9), metrics: vec![baseline_metric] };

    let sample =
        Sample { project: project.clone(), metric: metric.clone(), value: 1.31f64.to_bits(), ts: now_millis() };

    let calculations = calculate_regressions(&vec![sample], &baseline, 3.0f64.to_bits());

    let regressions: Vec<&Calculation> = calculations.iter().filter(|calc| calc.regression).collect();

    // expect one regression for the mean being outside the 3 sigma
    println!("{:#?}", regressions);
    assert_eq!(regressions.len(), 1);
    assert_eq!(regressions[0].metric, "detects 3 sigma");
}

#[test]
fn passes_near_3sigma() {
    let project = "test".to_owned();
    let metric = "passes near 3 sigma".to_owned();

    let measurement = summary(1.00, 0.1);

    let baseline_metric = BaselineMetric {
        project: project.clone(),
        metric: metric.clone(),
        ts: now_millis(),
        measurement,
    };

    let baseline = Baseline { version: Version::new(9, 9, 9), metrics: vec![baseline_metric] };

    let sample =
        Sample { project: project.clone(), metric: metric.clone(), value: 1.29f64.to_bits(), ts: now_millis() };

    let calculations = calculate_regressions(&vec![sample], &baseline, 3.0f64.to_bits());

    let regressions: Vec<&Calculation> = calculations.iter().filter(|calc| calc.regression).collect();

    // expect no regressions
    println!("{:#?}", regressions);
    assert!(regressions.is_empty());
}

#[test]
fn threshold_boundary_is_strict() {
    // mean 1.00, stddev 0.1, sigma 3.0: the threshold is mean + sigma * stddev
    // as 64-bit floating point computes it, and the verdict is a strict
    // greater-than comparison.
    let baseline = Baseline {
        version: Version::new(1, 0, 0),
        metrics: vec![BaselineMetric {
            project: "test".to_owned(),
            metric: "m".to_owned(),
            ts: 7,
            measurement: summary(1.00, 0.1),
        }],
    };
    let expected_threshold = (1.00f64 + 3.0f64 * 0.1f64).to_bits();

    for (value, expected_regression) in [(1.31f64, true), (1.29f64, false), (1.30f64, false)] {
        let sample = Sample {
            project: "test".to_owned(),
            metric: "m".to_owned(),
            value: value.to_bits(),
            ts: 9,
        };
        let calculations = calculate_regressions(&vec![sample], &baseline, 3.0f64.to_bits());
        assert_eq!(calculations.len(), 1);
        assert_eq!(calculations[0].threshold, expected_threshold);
        assert_eq!(calculations[0].regression, expected_regression);
    }
}

#[test]
fn unmatched_pairs_are_dropped() {
    // A baseline metric with no corresponding sample key produces no
    // calculation, and a sample with no corresponding baseline metric
    // produces no calculation.
    let baseline = Baseline {
        version: Version::new(1, 0, 0),
        metrics: vec![BaselineMetric {
            project: "alpha".to_owned(),
            metric: "compile".to_owned(),
            ts: 1,
            measurement: summary(1.00, 0.1),
        }],
    };
    let sample = Sample {
        project: "beta".to_owned(),
        metric: "compile".to_owned(),
        value: 9.0f64.to_bits(),
        ts: 2,
    };
    let calculations = calculate_regressions(&vec![sample], &baseline, 3.0f64.to_bits());
    assert!(calculations.is_empty());
}

#[test]
fn composite_key_does_not_collide() {
    // project "a" with metric "b:c" must not match project "a:b" with
    // metric "c".
    let baseline = Baseline {
        version: Version::new(1, 0, 0),
        metrics: vec![BaselineMetric {
            project: "a".to_owned(),
            metric: "b:c".to_owned(),
            ts: 1,
            measurement: summary(1.00, 0.1),
        }],
    };
    let sample = Sample {
        project: "a:b".to_owned(),
        metric: "c".to_owned(),
        value: 9.0f64.to_bits(),
        ts: 2,
    };
    let calculations = calculate_regressions(&vec![sample], &baseline, 3.0f64.to_bits());
    assert!(calculations.is_empty());
}

#[test]
fn duplicate_sample_keys_last_write_wins() {
    let baseline = Baseline {
        version: Version::new(1, 0, 0),
        metrics: vec![BaselineMetric {
            project: "test".to_owned(),
            metric: "m".to_owned(),
            ts: 1,
            measurement: summary(1.00, 0.1),
        }],
    };
    let early = Sample {
        project: "test".to_owned(),
        metric: "m".to_owned(),
        value: 9.0f64.to_bits(),
        ts: 10,
    };
    let late = Sample {
        project: "test".to_owned(),
        metric: "m".to_owned(),
        value: 1.0f64.to_bits(),
        ts: 20,
    };
    let calculations = calculate_regressions(&vec![early, late], &baseline, 3.0f64.to_bits());
    assert_eq!(calculations.len(), 1);
    assert_eq!(calculations[0].ts, 20);
    assert!(!calculations[0].regression);
}

#[test]
fn baseline_selection_picks_maximum_version() {
    let mk = |major: i32, minor: i32, patch: i32| Baseline {
        version: Version::new(major, minor, patch),
        metrics: vec![],
    };
    let baselines = vec![mk(1, 0, 0), mk(2, 0, 0), mk(1, 9, 9)];
    let chosen = select_baseline(&baselines).unwrap();
    assert_eq!(chosen.version, Version::new(2, 0, 0));
}

#[test]
fn baseline_selection_tie_keeps_first() {
    let first = Baseline {
        version: Version::new(1, 2, 3),
        metrics: vec![BaselineMetric {
            project: "first".to_owned(),
            metric: "m".to_owned(),
            ts: 1,
            measurement: summary(1.0, 0.1),
        }],
    };
    let second = Baseline {
        version: Version::new(1, 2, 3),
        metrics: vec![BaselineMetric {
            project: "second".to_owned(),
            metric: "m".to_owned(),
            ts: 2,
            measurement: summary(2.0, 0.2),
        }],
    };
    let baselines = vec![first.clone(), second];
    let chosen = select_baseline(&baselines).unwrap();
    assert_eq!(*chosen, first);
}

#[test]
fn empty_baseline_set_is_configuration_error() {
    assert_eq!(select_baseline(&vec![]), Err(ConfigurationError {}));
    assert_eq!(ConfigurationError {}.message(), "no baselines found");
    assert_eq!(
        regressions(&vec![], &vec![]),
        Err(CalculateError::Configuration(ConfigurationError {}))
    );
}

#[test]
fn malformed_sample_construction() {
    let mut no_times = summary(1.0, 0.1);
    no_times.times = vec![];
    let r = Sample::from_measurement("p".to_owned(), "m".to_owned(), 5, &no_times);
    assert_eq!(r, Err(MalformedMeasurementError { times_len: 0 }));
    assert_eq!(r.unwrap_err().message(), "found a sample with no measurement");

    let mut two_times = summary(1.0, 0.1);
    two_times.times = vec![1.0f64.to_bits(), 2.0f64.to_bits()];
    let r = Sample::from_measurement("p".to_owned(), "m".to_owned(), 5, &two_times);
    assert_eq!(r, Err(MalformedMeasurementError { times_len: 2 }));
    assert_eq!(r.unwrap_err().message(), "found a sample with too many measurements");

    let mut one_time = summary(1.0, 0.1);
    one_time.times = vec![1.0f64.to_bits()];
    let s = Sample::from_measurement("p".to_owned(), "m".to_owned(), 5, &one_time).unwrap();
    assert_eq!(s.value, 1.0f64.to_bits());
    assert_eq!(s.project, "p");
    assert_eq!(s.metric, "m");
    assert_eq!(s.ts, 5);
}

#[test]
fn end_to_end_scenario() {
    assert_eq!(THREE_SIGMA, 3.0f64.to_bits());

    let baseline = Baseline {
        version: Version::new(9, 9, 9),
        metrics: vec![BaselineMetric {
            project: "test".to_owned(),
            metric: "m".to_owned(),
            ts: 100,
            measurement: summary(1.00, 0.1),
        }],
    };
    let sample = Sample {
        project: "test".to_owned(),
        metric: "m".to_owned(),
        value: 1.31f64.to_bits(),
        ts: 12345,
    };

    let out = regressions(&vec![baseline], &vec![sample]).unwrap();
    let expected = Calculation {
        version: Version::new(9, 9, 9),
        project: "test".to_owned(),
        metric: "m".to_owned(),
        regression: true,
        ts: 12345,
        sigma: 3.0f64.to_bits(),
        mean: 1.00f64.to_bits(),
        stddev: 0.1f64.to_bits(),
        threshold: (1.00f64 + 3.0f64 * 0.1f64).to_bits(),
    };
    assert_eq!(out, vec![expected]);
}
