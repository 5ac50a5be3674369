use golem_runner::cleanup::{cleanup_plan, CleanupOptions, CleanupResult, CleanupStep};

#[test]
fn default_cleanup_options_has_keep_devices_false() {
    let opts = CleanupOptions::default();
    assert!(!opts.keep_devices);
}

#[test]
fn plan_orders_steps_and_skips_shutdown_when_keeping_devices() {
    let all = cleanup_plan(true, &CleanupOptions { keep_devices: false });
    assert_eq!(
        all,
        vec![
            CleanupStep::ResetOrientation,
            CleanupStep::ResetDarkMode,
            CleanupStep::ResetLocation,
            CleanupStep::RemovePortForwards,
            CleanupStep::StopRecording,
            CleanupStep::ShutdownDevice,
        ]
    );
    let kept = cleanup_plan(false, &CleanupOptions { keep_devices: true });
    assert_eq!(
        kept,
        vec![
            CleanupStep::ResetOrientation,
            CleanupStep::ResetDarkMode,
            CleanupStep::ResetLocation,
            CleanupStep::StopRecording,
        ]
    );
}

#[test]
fn failures_become_warnings_in_order() {
    let mut result = CleanupResult::new();
    result.record(CleanupStep::ResetOrientation, Err("no device".to_string()));
    result.record(CleanupStep::ResetDarkMode, Ok(()));
    result.record(CleanupStep::ShutdownDevice, Err("busy".to_string()));
    assert_eq!(
        result.warnings,
        vec![
            "Failed to reset orientation: no device".to_string(),
            "Failed to shutdown device: busy".to_string(),
        ]
    );
    assert_eq!(CleanupStep::StopRecording.failure_prefix(), "Failed to stop recording: ");
}
