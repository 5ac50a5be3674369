//! Best-effort cleanup after a flow: which device resets run, in what order,
//! and how each failure becomes a warning. Failures never stop the cleanup.
use vstd::prelude::*;
use crate::text::{append_str, string_from_chars};

verus! {

/// Options controlling what cleanup actions to perform.
pub struct CleanupOptions {
    /// When `true`, skip device shutdown but still reset orientation, dark
    /// mode, etc.
    pub keep_devices: bool,
}

impl Default for CleanupOptions {
    fn default() -> (r: Self)
        ensures
            !r.keep_devices,
    {
        CleanupOptions { keep_devices: false }
    }
}

/// The result of a cleanup run: the non-fatal warnings, in step order.
pub struct CleanupResult {
    /// Warnings from cleanup steps that failed.
    pub warnings: Vec<String>,
}

/// One cleanup action.
#[derive(Debug, Clone, Copy, PartialEq, Eq, Structural)]
pub enum CleanupStep {
    /// Reset the orientation to portrait.
    ResetOrientation,
    /// Turn dark mode off.
    ResetDarkMode,
    /// Clear the mocked location (reset to 0,0).
    ResetLocation,
    /// Remove port forwards (Android only).
    RemovePortForwards,
    /// Stop any running screen recording.
    StopRecording,
    /// Shut the device down.
    ShutdownDevice,
}

/// The cleanup steps, in order: orientation, dark mode, location, port
/// forwards on Android, recording, and shutdown unless devices are kept.
pub open spec fn spec_cleanup_plan(is_android: bool, keep_devices: bool) -> Seq<CleanupStep> {
    seq![CleanupStep::ResetOrientation, CleanupStep::ResetDarkMode, CleanupStep::ResetLocation] + (
    if is_android {
        seq![CleanupStep::RemovePortForwards]
    } else {
        Seq::empty()
    }) + seq![CleanupStep::StopRecording] + (if keep_devices {
        Seq::empty()
    } else {
        seq![CleanupStep::ShutdownDevice]
    })
}

/// The steps to run after a flow on a device (`is_android` for the
/// platform), in order.
pub fn cleanup_plan(is_android: bool, options: &CleanupOptions) -> (r: Vec<CleanupStep>)
    ensures
        r@ == spec_cleanup_plan(is_android, options.keep_devices),
{
    let mut steps: Vec<CleanupStep> = Vec::new();
    steps.push(CleanupStep::ResetOrientation);
    steps.push(CleanupStep::ResetDarkMode);
    steps.push(CleanupStep::ResetLocation);
    if is_android {
        steps.push(CleanupStep::RemovePortForwards);
    }
    steps.push(CleanupStep::StopRecording);
    if !options.keep_devices {
        steps.push(CleanupStep::ShutdownDevice);
    }
    assert(steps@ =~= spec_cleanup_plan(is_android, options.keep_devices));
    steps
}

/// What a failed step reports, before the error's own message.
pub open spec fn spec_failure_prefix(step: CleanupStep) -> Seq<char> {
    match step {
        CleanupStep::ResetOrientation => "Failed to reset orientation: "@,
        CleanupStep::ResetDarkMode => "Failed to reset dark mode: "@,
        CleanupStep::ResetLocation => "Failed to reset location: "@,
        CleanupStep::RemovePortForwards => "Failed to remove port forwards: "@,
        CleanupStep::StopRecording => "Failed to stop recording: "@,
        CleanupStep::ShutdownDevice => "Failed to shutdown device: "@,
    }
}

impl CleanupStep {
    /// The warning prefix of a failed step.
    pub fn failure_prefix(self) -> (r: &'static str)
        ensures
            r@ == spec_failure_prefix(self),
    {
        match self {
            CleanupStep::ResetOrientation => "Failed to reset orientation: ",
            CleanupStep::ResetDarkMode => "Failed to reset dark mode: ",
            CleanupStep::ResetLocation => "Failed to reset location: ",
            CleanupStep::RemovePortForwards => "Failed to remove port forwards: ",
            CleanupStep::StopRecording => "Failed to stop recording: ",
            CleanupStep::ShutdownDevice => "Failed to shutdown device: ",
        }
    }
}

impl CleanupResult {
    /// A result with no warnings yet.
    pub fn new() -> (r: Self)
        ensures
            r.warnings@.len() == 0,
    {
        CleanupResult { warnings: Vec::new() }
    }

    /// Records the outcome of one step: a failure adds its warning, a
    /// success adds nothing.
    pub fn record(&mut self, step: CleanupStep, outcome: Result<(), String>)
        ensures
            outcome is Ok ==> final(self).warnings@ == old(self).warnings@,
            outcome matches Err(e) ==> {
                &&& final(self).warnings@.len() == old(self).warnings@.len() + 1
                &&& final(self).warnings@.drop_last() == old(self).warnings@
                &&& final(self).warnings@.last()@ == spec_failure_prefix(step) + e@
            },
    {
        match outcome {
            Ok(()) => {},
            Err(e) => {
                let mut msg: Vec<char> = Vec::new();
                append_str(&mut msg, step.failure_prefix());
                append_str(&mut msg, e.as_str());
                let w = string_from_chars(&msg);
                self.warnings.push(w);
                assert(self.warnings@.drop_last() =~= old(self).warnings@);
            },
        }
    }
}

/// Keeping devices skips only the shutdown: the orientation, dark mode,
/// location and recording are still reset, in the same order.
pub proof fn lemma_keep_devices_skips_only_shutdown(is_android: bool)
    ensures
        !spec_cleanup_plan(is_android, true).contains(CleanupStep::ShutdownDevice),
        spec_cleanup_plan(is_android, false) == spec_cleanup_plan(is_android, true).push(
            CleanupStep::ShutdownDevice,
        ),
        spec_cleanup_plan(is_android, true)[0] == CleanupStep::ResetOrientation,
        spec_cleanup_plan(is_android, true)[1] == CleanupStep::ResetDarkMode,
{
    let p = spec_cleanup_plan(is_android, true);
    assert(spec_cleanup_plan(is_android, false) =~= p.push(CleanupStep::ShutdownDevice));
    assert forall|i: int| 0 <= i < p.len() implies p[i] != CleanupStep::ShutdownDevice by {
    }
}

/// Port forwards are removed on Android devices only.
pub proof fn lemma_port_forwards_android_only(is_android: bool, keep_devices: bool)
    ensures
        spec_cleanup_plan(is_android, keep_devices).contains(CleanupStep::RemovePortForwards)
            <==> is_android,
{
    let p = spec_cleanup_plan(is_android, keep_devices);
    if is_android {
        assert(p[3] == CleanupStep::RemovePortForwards);
    } else {
        assert forall|i: int| 0 <= i < p.len() implies p[i] != CleanupStep::RemovePortForwards by {
        }
    }
}


/// The cleanup resets the device first (orientation, then dark mode, then
/// location), stops the recording after those, and shuts the device down
/// last, after everything else; no step runs twice.
pub proof fn lemma_cleanup_order(is_android: bool, keep_devices: bool)
    ensures
        ({
            let p = spec_cleanup_plan(is_android, keep_devices);
            &&& p[0] == CleanupStep::ResetOrientation
            &&& p[1] == CleanupStep::ResetDarkMode
            &&& p[2] == CleanupStep::ResetLocation
            &&& !keep_devices ==> p.last() == CleanupStep::ShutdownDevice && p[p.len() - 2]
                == CleanupStep::StopRecording
            &&& keep_devices ==> p.last() == CleanupStep::StopRecording
            &&& forall|i: int, j: int| 0 <= i < j < p.len() ==> #[trigger] p[i] != #[trigger] p[j]
            &&& p.len() == 4 + (if is_android { 1int } else { 0 }) + (if keep_devices { 0int } else { 1 })
        }),
{
    let p = spec_cleanup_plan(is_android, keep_devices);
    if is_android {
        if keep_devices {
            assert(p =~= seq![CleanupStep::ResetOrientation, CleanupStep::ResetDarkMode, CleanupStep::ResetLocation, CleanupStep::RemovePortForwards, CleanupStep::StopRecording]);
        } else {
            assert(p =~= seq![CleanupStep::ResetOrientation, CleanupStep::ResetDarkMode, CleanupStep::ResetLocation, CleanupStep::RemovePortForwards, CleanupStep::StopRecording, CleanupStep::ShutdownDevice]);
        }
    } else {
        if keep_devices {
            assert(p =~= seq![CleanupStep::ResetOrientation, CleanupStep::ResetDarkMode, CleanupStep::ResetLocation, CleanupStep::StopRecording]);
        } else {
            assert(p =~= seq![CleanupStep::ResetOrientation, CleanupStep::ResetDarkMode, CleanupStep::ResetLocation, CleanupStep::StopRecording, CleanupStep::ShutdownDevice]);
        }
    }
}

} // verus!
