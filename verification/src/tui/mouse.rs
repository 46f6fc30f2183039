//! The region under the pointer, from the regions of the screen.

use vstd::prelude::*;

pub use crate::mouse::MouseTarget;

use crate::tui::render::{GeometryView, ScreenGeometry};

verus! {

/// The region of a cell.
pub open spec fn region(x: int, y: int, g: GeometryView) -> MouseTarget {
    if g.sidebar.holds(x, y) {
        MouseTarget::SidebarRow((y - g.sidebar.y) as usize)
    } else if g.composer.holds(x, y) {
        MouseTarget::Composer
    } else if g.messages.holds(x, y) {
        MouseTarget::MessageRow((y - g.messages.y) as u16)
    } else {
        MouseTarget::Nothing
    }
}

/// Find the region of cell `(x, y)`.
pub fn hit(x: u16, y: u16, g: &ScreenGeometry) -> (target: MouseTarget)
    ensures
        target == region(x as int, y as int, g@),
{
    if g.sidebar.contains(x, y) {
        return MouseTarget::SidebarRow((y - g.sidebar.y) as usize);
    }
    if g.composer.contains(x, y) {
        return MouseTarget::Composer;
    }
    if g.messages.contains(x, y) {
        return MouseTarget::MessageRow(y - g.messages.y);
    }
    MouseTarget::Nothing
}

} // verus!
