use strata::harness::{choose_stop, Driver, Plan, Report, Step, Stop};

/// Runs a plan with an operation and a clock that each batch moves on.
fn run(plan: Plan, tick: u128, mut op: impl FnMut(u64, usize) -> u64) -> Report {
    let mut driver = Driver::new(plan);
    let mut clock: u128 = 0;
    loop {
        match driver.next(clock) {
            Step::Warm { offset, batch } => {
                let rows = op(offset, batch);
                driver.warm(rows);
            }
            Step::Measure { offset, batch } => {
                let rows = op(offset, batch);
                clock += tick;
                driver.measure(rows, tick);
            }
            Step::Done => return driver.report(clock),
        }
    }
}

#[test]
fn stops_on_row_target_and_excludes_warmup() {
    let mut calls = 0;
    let report = run(Plan::new(10, Stop::Rows(50)).warmup(2), 1, |_, batch| {
        calls += 1;
        batch as u64
    });

    // 2 warmup batches are driven but not measured; 5 more reach the 50 target.
    assert_eq!(calls, 7);
    assert_eq!(report.rows(), 50);
    assert_eq!(report.samples.len(), 5);
    // Measurement starts after warmup, so the first sample is already at 20.
    assert_eq!(report.samples[0].offset, 20);
}

#[test]
fn stops_on_duration() {
    let limit = 50_000_000;
    let report = run(Plan::new(1, Stop::After(limit)).warmup(0), 5_000_000, |_, batch| batch as u64);

    assert!(report.wall >= limit);
    assert!(!report.samples.is_empty());
    assert_eq!(report.samples.len(), 10);
}

#[test]
fn stops_on_a_batch_without_rows() {
    let mut left = vec![0, 3, 4];
    let report = run(Plan::new(10, Stop::Rows(50)).warmup(0), 1, |_, _| left.pop().unwrap());
    assert_eq!(report.rows(), 7);
    let seen: Vec<(u64, u64)> = report.samples.iter().map(|s| (s.offset, s.rows)).collect();
    assert_eq!(seen, [(0, 4), (4, 3), (7, 0)]);
}

#[test]
fn a_reached_target_measures_nothing() {
    let report = run(Plan::new(10, Stop::Rows(0)), 1, |_, batch| batch as u64);
    assert_eq!(report.rows(), 0);
    assert!(report.samples.is_empty());
}

#[test]
fn a_plan_warms_up_once() {
    let plan = Plan::new(10, Stop::Rows(50));
    assert_eq!((plan.batch, plan.warmup), (10, 1));
}

#[test]
fn chooses_when_to_stop() {
    assert!(matches!(choose_stop(Some(5), Some(6)), Stop::Rows(5)));
    assert!(matches!(choose_stop(None, Some(6)), Stop::After(6_000_000_000)));
    assert!(matches!(choose_stop(None, None), Stop::Rows(10_000)));
}

#[test]
fn a_run_stops_at_the_first_batch_that_reaches_the_target() {
    let counts = [3u64, 1, 5, 2, 9];
    let mut calls = 0;
    let report = run(Plan::new(5, Stop::Rows(7)).warmup(0), 1, |_, _| {
        calls += 1;
        counts[calls - 1]
    });
    let rows: Vec<u64> = report.samples.iter().map(|sample| sample.rows).collect();
    assert_eq!(rows, [3, 1, 5]);

    let counts = [3u64, 0, 5];
    let mut calls = 0;
    let report = run(Plan::new(5, Stop::Rows(7)).warmup(0), 1, |_, _| {
        calls += 1;
        counts[calls - 1]
    });
    assert_eq!(report.samples.len(), 2);
}
