use golem_runner::barrier::{failure_point_of, stops_at, FailureBarrier};

#[test]
fn new_barrier_has_no_failure() {
    let b = FailureBarrier::new();
    assert!(!b.has_failure());
    assert!(!b.should_stop(100));
    assert_eq!(b.failure_point(), None);
}

#[test]
fn report_failure_records_step() {
    let b = FailureBarrier::new();
    b.report_failure(7);
    assert!(b.has_failure());
    assert_eq!(b.failure_point(), Some(7));
}

#[test]
fn should_stop_at_failure_point() {
    let b = FailureBarrier::new();
    b.report_failure(7);
    assert!(!b.should_stop(6));
    assert!(b.should_stop(7));
    assert!(b.should_stop(8));
}

#[test]
fn first_failure_wins() {
    let b = FailureBarrier::new();
    b.report_failure(10);
    b.report_failure(5);
    b.report_failure(15);
    assert_eq!(b.failure_point(), Some(5));
}

#[test]
fn clone_shares_state() {
    let b1 = FailureBarrier::new();
    let b2 = b1.clone();
    b1.report_failure(7);
    assert!(b2.should_stop(7));
}

#[test]
fn separate_instances_do_not_share_state() {
    let flow_a = FailureBarrier::new();
    let flow_b = FailureBarrier::new();
    flow_a.report_failure(3);
    assert!(flow_a.has_failure(), "flow A SHALL record its own failure");
    assert!(
        !flow_b.has_failure(),
        "flow B SHALL NOT see flow A's failure across independent barrier instances",
    );
    assert!(!flow_b.should_stop(3));
    assert!(!flow_b.should_stop(100));
    assert_eq!(flow_b.failure_point(), None);
}

#[test]
fn stored_value_decisions() {
    assert!(!stops_at(u64::MAX, u64::MAX));
    assert!(stops_at(4, 4));
    assert!(!stops_at(4, 3));
    assert_eq!(failure_point_of(u64::MAX), None);
    assert_eq!(failure_point_of(0), Some(0));
}

#[test]
fn default_barrier_is_fresh() {
    let b = FailureBarrier::default();
    assert!(!b.has_failure());
    b.report_failure(0);
    assert!(b.should_stop(0));
}
