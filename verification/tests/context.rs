use golem_runner::context::{LaunchSlot, SettledTreeSlot, TracePairSlot};

#[test]
fn take_launch_ms_none_when_unset() {
    let mut slot = LaunchSlot::new();
    assert_eq!(slot.take(), None, "unrecorded launch SHALL yield None");
}

#[test]
fn set_then_take_launch_ms_returns_value() {
    let mut slot = LaunchSlot::new();
    slot.set(42);
    assert_eq!(slot.take(), Some(42), "recorded launch SHALL be returned");
}

#[test]
fn take_launch_ms_resets_after_take() {
    let mut slot = LaunchSlot::new();
    slot.set(7);
    let _ = slot.take();
    assert_eq!(slot.take(), None, "second take SHALL yield None after reset");
}

#[test]
fn set_launch_ms_overwrites_previous() {
    let mut slot = LaunchSlot::new();
    slot.set(10);
    slot.set(20);
    assert_eq!(slot.take(), Some(20), "latest set SHALL overwrite the prior value");
}

#[test]
fn set_launch_ms_zero_is_none() {
    let mut slot = LaunchSlot::new();
    slot.set(0);
    assert_eq!(slot.take(), None, "zero launch ms SHALL be treated as no measurement");
}

#[test]
fn trace_pair_reused_on_matching_index_with_shot() {
    let mut slot = TracePairSlot::new();
    slot.cache("tree", vec![1, 2, 3], 5);
    let pair = slot.take_at(5);
    assert!(pair.is_some(), "matching index SHALL reuse the pair");
    assert_eq!(pair.expect("pair").1, vec![1, 2, 3], "the cached screenshot bytes SHALL come back intact");
}

#[test]
fn trace_pair_skipped_on_stale_index() {
    let mut slot = TracePairSlot::new();
    slot.cache("tree", vec![0], 3);
    assert!(slot.take_at(7).is_none(), "stale pair (earlier step) SHALL NOT be reused");
}

#[test]
fn trace_pair_taken_once() {
    let mut slot = TracePairSlot::new();
    slot.cache("tree", vec![9], 1);
    assert!(slot.take_at(1).is_some());
    assert!(slot.take_at(1).is_none(), "the slot SHALL be cleared after taking");
}

#[test]
fn latest_settled_tree_returned_and_taken_once() {
    let mut slot = SettledTreeSlot::new();
    slot.cache("tree at 3", 3, 100u64);
    slot.cache("tree at 5", 5, 200u64); // later step overwrites
    assert_eq!(
        slot.take_latest(),
        Some(("tree at 5", 200u64)),
        "the latest cached settled tree SHALL be returned"
    );
    assert!(slot.take_latest().is_none(), "the slot SHALL be cleared after taking");
}

#[test]
fn clear_settled_tree_drops_cache() {
    let mut slot = SettledTreeSlot::new();
    slot.cache("tree", 1, 0u64);
    slot.clear();
    assert!(slot.take_latest().is_none(), "clear SHALL drop a prior block's cached tree");
}
