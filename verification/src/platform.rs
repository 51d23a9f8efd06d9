//! Platform capability for click-through and the uniform outcome of a
//! click-through request.
//!
//! The running operating system is represented by a variant tag chosen at
//! startup, so that one platform-independent controller decides what a
//! click-through request returns from three facts: the platform, whether a
//! native handle could be resolved, and whether the native style write
//! reported success.

use vstd::prelude::*;

verus! {

/// The operating system the process runs on, as far as click-through is
/// concerned.
#[derive(Clone, Copy, PartialEq, Eq, Structural, Debug)]
pub enum Platform {
    /// Windows: click-through is implemented through extended window styles.
    Windows,
    /// macOS: a native implementation would use an "ignores mouse events"
    /// window attribute; none exists yet, so the platform reports
    /// unsupported rather than silently doing nothing.
    MacOs,
    /// Any other platform, with no click-through implementation.
    Other,
}

/// Why a click-through request failed.
#[derive(Clone, Copy, PartialEq, Eq, Structural, Debug)]
pub enum ClickThroughError {
    /// The native window handle could not be obtained from the toolkit.
    HandleUnavailable,
    /// The native call that writes the window style reported failure.
    StyleWriteFailed,
    /// No click-through implementation exists for the running platform.
    UnsupportedPlatform,
}

/// Whether the platform has a working click-through implementation.
pub open spec fn spec_click_through_supported(platform: Platform) -> bool {
    platform is Windows
}

/// Pure capability query: true exactly on the platforms where a
/// click-through request can succeed.  No false positives: on every other
/// platform a request always fails with `UnsupportedPlatform`.
pub fn is_click_through_supported(platform: Platform) -> (supported: bool)
    ensures
        supported == spec_click_through_supported(platform),
{
    match platform {
        Platform::Windows => true,
        Platform::MacOs => false,
        Platform::Other => false,
    }
}

/// The uniform outcome of one click-through request, given the platform,
/// whether the native handle was resolved, and whether the native style
/// write succeeded.
pub open spec fn spec_classify_click_through(
    platform: Platform,
    handle_resolved: bool,
    style_write_ok: bool,
) -> Result<(), ClickThroughError> {
    if !spec_click_through_supported(platform) {
        Err(ClickThroughError::UnsupportedPlatform)
    } else if !handle_resolved {
        Err(ClickThroughError::HandleUnavailable)
    } else if !style_write_ok {
        Err(ClickThroughError::StyleWriteFailed)
    } else {
        Ok(())
    }
}

/// Maps the raw facts of one click-through attempt to its uniform result:
/// unsupported platforms fail with `UnsupportedPlatform`, a missing handle
/// with `HandleUnavailable`, a failed style write with `StyleWriteFailed`,
/// and only a resolved handle with a successful write succeeds.
pub fn classify_click_through(
    platform: Platform,
    handle_resolved: bool,
    style_write_ok: bool,
) -> (outcome: Result<(), ClickThroughError>)
    ensures
        outcome == spec_classify_click_through(platform, handle_resolved, style_write_ok),
{
    if !is_click_through_supported(platform) {
        Err(ClickThroughError::UnsupportedPlatform)
    } else if !handle_resolved {
        Err(ClickThroughError::HandleUnavailable)
    } else if !style_write_ok {
        Err(ClickThroughError::StyleWriteFailed)
    } else {
        Ok(())
    }
}

/// Capability consistency: when the capability query says a platform is
/// unsupported, every click-through request on it fails with
/// `UnsupportedPlatform`; when it says supported, a request with a resolved
/// handle and a successful style write succeeds, so at least one request can
/// succeed.
pub proof fn lemma_capability_consistency(platform: Platform)
    ensures
        !spec_click_through_supported(platform) ==> forall|h: bool, w: bool|
            spec_classify_click_through(platform, h, w)
                == Err::<(), ClickThroughError>(ClickThroughError::UnsupportedPlatform),
        spec_click_through_supported(platform) ==> spec_classify_click_through(
            platform,
            true,
            true,
        ) == Ok::<(), ClickThroughError>(()),
{
}

} // verus!
