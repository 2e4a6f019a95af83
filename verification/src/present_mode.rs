//! PresentMon's `PresentMode` column: which presentation path a frame took,
//! and the warning shown when most frames went through the compositor.

use crate::text::{push_str, str_eq, string_from_chars};
use vstd::prelude::*;

verus! {

broadcast use vstd::string::group_string_axioms;

#[derive(Clone, Copy, Debug, PartialEq, Eq, Structural)]
pub enum PresentModeCategory {
    /// The game owns the display: no compositor in the frame path.
    Exclusive,
    /// Composed, but the frame is scanned out from an overlay plane.
    ComposedWithOverlay,
    /// The desktop compositor copies or flips every frame.
    Composed,
    /// A value this engine does not recognise.
    Unknown,
}

impl PresentModeCategory {
    pub open spec fn spec_bypassed(self) -> bool {
        self == PresentModeCategory::Exclusive || self == PresentModeCategory::ComposedWithOverlay
    }

    /// Whether frames in this category skip the desktop compositor.
    pub fn is_compositor_bypassed(&self) -> (b: bool)
        ensures
            b == self.spec_bypassed(),
    {
        match self {
            PresentModeCategory::Exclusive | PresentModeCategory::ComposedWithOverlay => true,
            _ => false,
        }
    }
}

/// The category of a raw `PresentMode` value.
pub open spec fn category_of(raw: Seq<char>) -> PresentModeCategory {
    if raw == "Hardware: Legacy Flip"@ || raw == "Hardware: Legacy Copy to front buffer"@ || raw
        == "Hardware: Independent Flip"@ {
        PresentModeCategory::Exclusive
    } else if raw == "Hardware Composed: Independent Flip"@ {
        PresentModeCategory::ComposedWithOverlay
    } else if raw == "Composed: Flip"@ || raw == "Composed: Copy with GPU GDI"@ || raw
        == "Composed: Copy with CPU GDI"@ {
        PresentModeCategory::Composed
    } else {
        PresentModeCategory::Unknown
    }
}

/// Classifies a raw `PresentMode` value; anything not recognised is
/// `Unknown`, never silently exclusive.
pub fn classify_present_mode(raw: &str) -> (c: PresentModeCategory)
    ensures
        c == category_of(raw@),
{
    if str_eq(raw, "Hardware: Legacy Flip") || str_eq(raw, "Hardware: Legacy Copy to front buffer")
        || str_eq(raw, "Hardware: Independent Flip") {
        PresentModeCategory::Exclusive
    } else if str_eq(raw, "Hardware Composed: Independent Flip") {
        PresentModeCategory::ComposedWithOverlay
    } else if str_eq(raw, "Composed: Flip") || str_eq(raw, "Composed: Copy with GPU GDI") || str_eq(
        raw,
        "Composed: Copy with CPU GDI",
    ) {
        PresentModeCategory::Composed
    } else {
        PresentModeCategory::Unknown
    }
}

pub const COMPOSITOR_WARNING_HEAD: &'static str = "Most frames (";
pub const COMPOSITOR_WARNING_TAIL: &'static str = ") went through the desktop compositor -- this usually means CS2 isn't in exclusive Fullscreen mode, which can add latency and measurement noise unrelated to the tweak under test.";

/// The warning for a dominant mode, if it is a composed one.
pub open spec fn warning_for(dominant: Seq<char>) -> Option<Seq<char>> {
    if category_of(dominant) == PresentModeCategory::Composed {
        Some(COMPOSITOR_WARNING_HEAD@ + dominant + COMPOSITOR_WARNING_TAIL@)
    } else {
        None
    }
}

/// A warning, naming the mode, when the dominant mode went through the
/// desktop compositor (usually CS2 not in exclusive fullscreen); `None`
/// for exclusive, overlay and unrecognised modes.
pub fn misconfiguration_warning(dominant_mode: &str) -> (r: Option<String>)
    ensures
        match r {
            Some(w) => warning_for(dominant_mode@) == Some(w@),
            None => warning_for(dominant_mode@) is None,
        },
{
    match classify_present_mode(dominant_mode) {
        PresentModeCategory::Composed => {
            let mut out: Vec<char> = Vec::new();
            push_str(&mut out, COMPOSITOR_WARNING_HEAD);
            push_str(&mut out, dominant_mode);
            push_str(&mut out, COMPOSITOR_WARNING_TAIL);
            Some(string_from_chars(&out))
        },
        _ => None,
    }
}

/// A mode is warned about exactly when it does not bypass the compositor
/// and is a recognised one.
pub proof fn lemma_warning_iff_composed(dominant: Seq<char>)
    ensures
        (warning_for(dominant) is Some) == (!category_of(dominant).spec_bypassed() && category_of(
            dominant,
        ) != PresentModeCategory::Unknown),
{
}

} // verus!
