//! Geometry helpers shared by the layouts.
use vstd::prelude::*;

use crate::types::{opt_rect_eq, WindowGeom};

verus! {

/// Step, in pixels, of keyboard moves of floating windows.
pub const FLOATING_MOVE_STEP: i32 = 50;

/// A window whose layout target is where it already is has nothing to
/// commit: its target is cleared.
pub open spec fn spec_skip_if_at_rest(g: WindowGeom) -> WindowGeom {
    if g.finish == Some(g.current) {
        WindowGeom { finish: None, ..g }
    } else {
        g
    }
}

/// Clear the layout target of a window that is already at it.
pub fn skip_if_at_rest(geom: &mut WindowGeom)
    ensures
        *final(geom) == spec_skip_if_at_rest(*old(geom)),
{
    if opt_rect_eq(geom.finish, Some(geom.current)) {
        geom.finish = None;
    }
}

} // verus!
