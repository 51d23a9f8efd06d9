use zetafrog::platform::{
    classify_click_through, is_click_through_supported, ClickThroughError, Platform,
};
use zetafrog::style::{set_click_through, EX_STYLE_LAYERED, EX_STYLE_TRANSPARENT};

#[test]
fn only_windows_supports_click_through() {
    assert!(is_click_through_supported(Platform::Windows));
    assert!(!is_click_through_supported(Platform::MacOs));
    assert!(!is_click_through_supported(Platform::Other));
}

#[test]
fn capability_query_agrees_with_request_outcomes() {
    assert_eq!(classify_click_through(Platform::Windows, true, true), Ok(()));
    assert_eq!(
        classify_click_through(Platform::MacOs, true, true),
        Err(ClickThroughError::UnsupportedPlatform)
    );
    assert_eq!(
        classify_click_through(Platform::Other, false, false),
        Err(ClickThroughError::UnsupportedPlatform)
    );
}

#[test]
fn classify_reports_each_failure() {
    assert_eq!(
        classify_click_through(Platform::Windows, false, true),
        Err(ClickThroughError::HandleUnavailable)
    );
    assert_eq!(
        classify_click_through(Platform::Windows, true, false),
        Err(ClickThroughError::StyleWriteFailed)
    );
}

#[test]
fn enabling_sets_layered_and_transparent_bits() {
    let style = set_click_through(0, true);
    assert_eq!(style & EX_STYLE_LAYERED, EX_STYLE_LAYERED);
    assert_eq!(style & EX_STYLE_TRANSPARENT, EX_STYLE_TRANSPARENT);
}

#[test]
fn disabling_keeps_layered_and_clears_transparent() {
    let enabled = set_click_through(EX_STYLE_LAYERED, true);
    let disabled = set_click_through(enabled, false);
    assert_eq!(disabled & EX_STYLE_LAYERED, EX_STYLE_LAYERED);
    assert_eq!(disabled & EX_STYLE_TRANSPARENT, 0);
}

#[test]
fn toggle_preserves_unrelated_style_bits() {
    let other_bits: u32 = 0x0000_0100 | 0x0004_0000;
    let enabled = set_click_through(other_bits, true);
    let disabled = set_click_through(enabled, false);
    assert_eq!(enabled & other_bits, other_bits);
    assert_eq!(disabled & other_bits, other_bits);
    assert_eq!(disabled & EX_STYLE_TRANSPARENT, 0);
}
