use range_bench::block::block_plan;
use range_bench::columnar::columnar_plan;
use range_bench::error::BenchError;
use range_bench::metrics::report;
use range_bench::scheduler::{aggregate_outcomes, FetchOutcome, Scheduler};

#[test]
fn window_bounds_admissions() {
    let plan = block_plan(1000, 1, 300).unwrap();
    let mut s = Scheduler::new(plan, 2);
    assert!(s.can_admit());
    let _u0 = s.admit_next();
    assert!(s.can_admit());
    let _u1 = s.admit_next();
    // Both slots taken: nothing more may start until one completes.
    assert!(!s.can_admit());
    assert_eq!(s.in_flight_count, 2);
    s.complete_ok(_u1, 300);
    assert!(s.can_admit());
    assert_eq!(s.in_flight_count, 1);
}

#[test]
fn out_of_order_completions_sum_to_plan_total() {
    let plan = block_plan(1000, 1, 300).unwrap();
    let expected_total = plan.total_bytes;
    let mut s = Scheduler::new(plan, 2);
    let u0 = s.admit_next();
    let u1 = s.admit_next();
    // Completions arrive out of submission order.
    s.complete_ok(u1, 300);
    let u2 = s.admit_next();
    s.complete_ok(u0, 300);
    let u3 = s.admit_next();
    assert!(!s.can_admit());
    s.complete_ok(u3, 100);
    s.complete_ok(u2, 300);
    assert!(!s.can_admit());
    assert_eq!(s.result().unwrap(), 1000);
    assert_eq!(s.result().unwrap(), expected_total);
}

#[test]
fn one_failure_fails_the_run() {
    let plan = block_plan(900, 1, 300).unwrap();
    let mut s = Scheduler::new(plan, 2);
    let u0 = s.admit_next();
    let u1 = s.admit_next();
    s.complete_failed(u0);
    // A failure stops admission; already admitted work may still finish.
    assert!(!s.can_admit());
    s.complete_ok(u1, 300);
    assert_eq!(s.result().unwrap_err(), BenchError::FetchFailure);
}

#[test]
fn row_group_units_complete_as_one_slot() {
    let pages: Vec<u64> = vec![10, 20, 30];
    let plan = columnar_plan(125, 1, &pages).unwrap();
    let mut s = Scheduler::new(plan, 1);
    let u0 = s.admit_next();
    assert!(!s.can_admit());
    // One row-group fetch: one outcome per column, folded into one report.
    let outcomes = vec![
        FetchOutcome::Bytes(10),
        FetchOutcome::Bytes(20),
        FetchOutcome::Bytes(30),
    ];
    let unit_total = aggregate_outcomes(&outcomes).unwrap();
    assert_eq!(unit_total, 60);
    s.complete_ok(u0, unit_total);
    let u1 = s.admit_next();
    s.complete_ok(u1, 60);
    assert_eq!(s.result().unwrap(), 120);
}

#[test]
fn aggregate_reports_first_failure() {
    let outcomes = vec![
        FetchOutcome::Bytes(10),
        FetchOutcome::Failed,
        FetchOutcome::Bytes(30),
    ];
    assert_eq!(aggregate_outcomes(&outcomes).unwrap_err(), BenchError::FetchFailure);
}

#[test]
fn aggregate_of_no_outcomes_is_zero() {
    let outcomes: Vec<FetchOutcome> = vec![];
    assert_eq!(aggregate_outcomes(&outcomes).unwrap(), 0);
}

#[test]
fn report_computes_throughput() {
    let r = report(Ok(2700), 1000, 3, 12, 10).unwrap();
    assert_eq!(r.num_objects, 3);
    assert_eq!(r.unit_count, 12);
    assert_eq!(r.parallel_downloads, 10);
    assert_eq!(r.total_bytes, 2700);
    assert_eq!(r.elapsed_us, 1000);
    // 2700 bytes in 1000 us: 2_700_000 bytes per second.
    assert_eq!(r.bytes_per_second, 2_700_000);
}

#[test]
fn report_with_no_elapsed_time_has_zero_rate() {
    let r = report(Ok(100), 0, 1, 1, 1).unwrap();
    assert_eq!(r.bytes_per_second, 0);
}

#[test]
fn failed_run_emits_no_record() {
    let r = report(Err(BenchError::FetchFailure), 1000, 3, 12, 10);
    assert_eq!(r.unwrap_err(), BenchError::FetchFailure);
}
