//! Floating workspace layout.
use vstd::prelude::*;

use crate::layout::common::{skip_if_at_rest, spec_skip_if_at_rest};
use crate::types::{Rectangle, WindowGeom};

verus! {

/// Where a floating-layout window is headed before the vertical offset:
/// the whole output when fullscreen, its floating rectangle otherwise.
pub open spec fn floating_base(g: WindowGeom, output_rect: Rectangle) -> Rectangle {
    if g.is_fullscreen {
        output_rect
    } else {
        g.floating
    }
}

/// The window after the floating layout: its target is its base rectangle
/// shifted down by `y_offset` (in 32-bit wrapping arithmetic, as the release
/// build computes it), cleared when the window is already there.
pub open spec fn spec_floating_apply(g: WindowGeom, output_rect: Rectangle, y_offset: i32) -> WindowGeom {
    let base = floating_base(g, output_rect);
    spec_skip_if_at_rest(
        WindowGeom {
            finish: Some(Rectangle { y: base.y.wrapping_add(y_offset), ..base }),
            ..g
        },
    )
}

/// Compute the layout targets of a floating workspace.
pub fn apply(windows: &mut Vec<WindowGeom>, output_rect: Rectangle, y_offset: i32)
    ensures
        final(windows)@.len() == old(windows)@.len(),
        forall|i: int|
            0 <= i < final(windows)@.len() ==> #[trigger] final(windows)@[i]
                == spec_floating_apply(old(windows)@[i], output_rect, y_offset),
{
    let ghost start = old(windows)@;
    let mut i: usize = 0;
    while i < windows.len()
        invariant
            windows@.len() == start.len(),
            i <= start.len(),
            forall|j: int|
                0 <= j < i ==> #[trigger] windows@[j] == spec_floating_apply(
                    start[j],
                    output_rect,
                    y_offset,
                ),
            forall|j: int| i <= j < start.len() ==> #[trigger] windows@[j] == start[j],
        decreases start.len() - i,
    {
        let window = &mut windows[i];
        let mut finish = if window.is_fullscreen {
            output_rect
        } else {
            window.floating
        };
        finish.y = finish.y.wrapping_add(y_offset);
        window.finish = Some(finish);
        skip_if_at_rest(window);
        i = i + 1;
    }
}

} // verus!
