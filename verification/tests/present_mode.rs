use voidframe::present_mode::{classify_present_mode, misconfiguration_warning, PresentModeCategory};

#[test]
fn classifies_every_documented_presentmon_mode() {
    assert_eq!(classify_present_mode("Hardware: Legacy Flip"), PresentModeCategory::Exclusive);
    assert_eq!(
        classify_present_mode("Hardware: Legacy Copy to front buffer"),
        PresentModeCategory::Exclusive
    );
    assert_eq!(classify_present_mode("Hardware: Independent Flip"), PresentModeCategory::Exclusive);
    assert_eq!(
        classify_present_mode("Hardware Composed: Independent Flip"),
        PresentModeCategory::ComposedWithOverlay
    );
    assert_eq!(classify_present_mode("Composed: Flip"), PresentModeCategory::Composed);
    assert_eq!(classify_present_mode("Composed: Copy with GPU GDI"), PresentModeCategory::Composed);
    assert_eq!(classify_present_mode("Composed: Copy with CPU GDI"), PresentModeCategory::Composed);
}

#[test]
fn unrecognised_value_is_unknown_not_silently_exclusive() {
    assert_eq!(
        classify_present_mode("Something Future PresentMon Adds"),
        PresentModeCategory::Unknown
    );
}

#[test]
fn compositor_bypassed_is_true_only_for_exclusive_and_overlay() {
    assert!(PresentModeCategory::Exclusive.is_compositor_bypassed());
    assert!(PresentModeCategory::ComposedWithOverlay.is_compositor_bypassed());
    assert!(!PresentModeCategory::Composed.is_compositor_bypassed());
    assert!(!PresentModeCategory::Unknown.is_compositor_bypassed());
}

#[test]
fn misconfiguration_warning_fires_only_for_composed() {
    let warning = misconfiguration_warning("Composed: Flip")
        .expect("Composed dominant mode should produce a warning");
    assert!(warning.contains("compositor"));
    assert!(warning.contains("Composed: Flip"));
}

#[test]
fn misconfiguration_warning_is_silent_for_exclusive_and_overlay() {
    assert_eq!(misconfiguration_warning("Hardware: Independent Flip"), None);
    assert_eq!(misconfiguration_warning("Hardware Composed: Independent Flip"), None);
}

#[test]
fn misconfiguration_warning_is_silent_for_unknown_and_empty_mode() {
    assert_eq!(misconfiguration_warning("Something Future PresentMon Adds"), None);
    assert_eq!(misconfiguration_warning(""), None);
}

#[test]
fn misconfiguration_warning_text_is_exact() {
    assert_eq!(
        misconfiguration_warning("Composed: Flip").unwrap(),
        "Most frames (Composed: Flip) went through the desktop compositor -- this usually means CS2 isn't in exclusive Fullscreen mode, which can add latency and measurement noise unrelated to the tweak under test."
    );
}
