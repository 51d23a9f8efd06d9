//! Window extended-style computation for click-through ("transparent to
//! input") behaviour.
//!
//! A native window's extended style is a bit set.  Enabling click-through
//! sets both the layered bit and the transparent-to-input bit; disabling it
//! keeps the layered bit (needed for the visual transparency already in use)
//! but clears the transparent-to-input bit.  Whether the window passes mouse
//! hits through is decided by the transparent-to-input bit alone.

use vstd::prelude::*;

verus! {

/// Extended-style bit marking a layered window (required for per-pixel
/// transparency).
pub const EX_STYLE_LAYERED: u32 = 0x0008_0000;

/// Extended-style bit marking a window as transparent to mouse input.
pub const EX_STYLE_TRANSPARENT: u32 = 0x0000_0020;

/// The extended style a window carries after a click-through change:
/// enabling adds the layered and transparent bits, disabling keeps layered
/// and clears transparent.
pub open spec fn spec_apply_click_through(ex_style: u32, enabled: bool) -> u32 {
    if enabled {
        ex_style | EX_STYLE_LAYERED | EX_STYLE_TRANSPARENT
    } else {
        (ex_style | EX_STYLE_LAYERED) & !EX_STYLE_TRANSPARENT
    }
}

/// Whether a window with this extended style ignores mouse input.
pub open spec fn spec_is_click_through(ex_style: u32) -> bool {
    ex_style & EX_STYLE_TRANSPARENT != 0
}

/// Computes the new extended style for a window whose click-through state is
/// being switched to `enabled`.
pub fn set_click_through(ex_style: u32, enabled: bool) -> (new_style: u32)
    ensures
        new_style == spec_apply_click_through(ex_style, enabled),
        spec_is_click_through(new_style) == enabled,
{
    let new_style: u32 = if enabled {
        ex_style | EX_STYLE_LAYERED | EX_STYLE_TRANSPARENT
    } else {
        (ex_style | EX_STYLE_LAYERED) & !EX_STYLE_TRANSPARENT
    };
    proof {
        lemma_apply_click_through_decides(ex_style, enabled);
    }
    new_style
}

/// Applying a click-through change leaves the transparent-to-input bit equal
/// to the requested state, whatever the style was before.
pub proof fn lemma_apply_click_through_decides(ex_style: u32, enabled: bool)
    ensures
        spec_is_click_through(spec_apply_click_through(ex_style, enabled)) == enabled,
{
    assert(((ex_style | 0x0008_0000u32 | 0x0000_0020u32) & 0x0000_0020u32) != 0u32)
        by (bit_vector);
    assert((((ex_style | 0x0008_0000u32) & !0x0000_0020u32) & 0x0000_0020u32) == 0u32)
        by (bit_vector);
}

/// Enabling click-through and then disabling it restores the window's
/// input-hit-testing behaviour: a window that did not pass clicks through
/// before the two calls does not pass them through after.
pub proof fn lemma_toggle_restores_hit_testing(ex_style: u32)
    requires
        !spec_is_click_through(ex_style),
    ensures
        spec_is_click_through(spec_apply_click_through(spec_apply_click_through(ex_style, true), false))
            == spec_is_click_through(ex_style),
{
    lemma_apply_click_through_decides(spec_apply_click_through(ex_style, true), false);
}

/// The other style bits are untouched by a click-through change: only the
/// layered and transparent bits can differ from the old style.
pub proof fn lemma_apply_click_through_preserves_other_bits(ex_style: u32, enabled: bool)
    ensures
        spec_apply_click_through(ex_style, enabled) & !(EX_STYLE_LAYERED | EX_STYLE_TRANSPARENT)
            == ex_style & !(EX_STYLE_LAYERED | EX_STYLE_TRANSPARENT),
{
    assert(((ex_style | 0x0008_0000u32 | 0x0000_0020u32) & !(0x0008_0000u32 | 0x0000_0020u32))
        == ex_style & !(0x0008_0000u32 | 0x0000_0020u32)) by (bit_vector);
    assert((((ex_style | 0x0008_0000u32) & !0x0000_0020u32) & !(0x0008_0000u32 | 0x0000_0020u32))
        == ex_style & !(0x0008_0000u32 | 0x0000_0020u32)) by (bit_vector);
}

} // verus!
