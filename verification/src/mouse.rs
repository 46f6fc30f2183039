//! The region under the pointer, from the size of the screen alone.

use vstd::prelude::*;

use crate::ui::{GAP_ROWS, HORIZONTAL_PAD, SEPARATOR_GAP, SIDEBAR_WIDTH};

verus! {

/// What the pointer is over.
#[derive(Debug, Clone, Copy, PartialEq, Eq, Structural)]
pub enum MouseTarget {
    /// A row of the sidebar, counted from the top of the screen.
    SidebarRow(usize),
    /// A row of the message pane, counted from its top. Scrolling is not applied.
    MessageRow(u16),
    /// Inside the message pane, but on no row.
    MessageBlank,
    /// The composer, with its accent and the gap to its right.
    Composer,
    /// Anything else: the separator line, paddings and gaps.
    Nothing,
}

/// The region of a cell on a screen of this size, with a composer of
/// `composer_rows` rows; the welcome page has none.
pub open spec fn region(x: int, y: int, screen_w: int, screen_h: int, composer_rows: int) -> MouseTarget {
    let composer_top = if screen_h > 2 + composer_rows {
        screen_h - 2 - composer_rows
    } else {
        0
    };
    if y >= screen_h || x >= screen_w {
        MouseTarget::Nothing
    } else if x < 22 {
        MouseTarget::SidebarRow(y as usize)
    } else if x < 24 {
        MouseTarget::Nothing
    } else if composer_rows > 0 && composer_top <= y < composer_top + composer_rows {
        MouseTarget::Composer
    } else if 26 <= x < screen_w - 2 && y < composer_top {
        MouseTarget::MessageRow(y as u16)
    } else {
        MouseTarget::Nothing
    }
}

/// Find the region of cell `(x, y)`.
pub fn hit(x: u16, y: u16, screen_w: u16, screen_h: u16, composer_rows: u16) -> (target:
    MouseTarget)
    requires
        composer_rows <= u16::MAX - GAP_ROWS,
    ensures
        target == region(
            x as int,
            y as int,
            screen_w as int,
            screen_h as int,
            composer_rows as int,
        ),
{
    if y >= screen_h || x >= screen_w {
        return MouseTarget::Nothing;
    }
    if x < SIDEBAR_WIDTH {
        return MouseTarget::SidebarRow(y as usize);
    }
    let main_x: u16 = SIDEBAR_WIDTH + SEPARATOR_GAP;
    if x < main_x {
        return MouseTarget::Nothing;
    }
    let composer_top: u16 = screen_h.saturating_sub(GAP_ROWS + composer_rows);
    if composer_rows > 0 && y >= composer_top && y - composer_top < composer_rows {
        return MouseTarget::Composer;
    }
    let right_edge: u16 = screen_w.saturating_sub(HORIZONTAL_PAD);
    if x >= main_x + HORIZONTAL_PAD && x < right_edge && y < composer_top {
        return MouseTarget::MessageRow(y);
    }
    MouseTarget::Nothing
}

/// Each region has its cells: the sidebar the 22 columns on the left, the composer
/// its rows above the last two from column 24 on, and the messages the rows above
/// the composer from column 26 on, up to two columns before the end. Nothing lies
/// outside the screen, and nothing else is hit.
pub proof fn law_cells_belong_to_their_region(x: int, y: int, width: int, height: int, rows: int)
    requires
        0 <= x <= u16::MAX,
        0 <= y <= u16::MAX,
        0 <= rows,
        0 <= height <= u16::MAX,
    ensures
        ({
            let hit = region(x, y, width, height, rows);
            let inside = x < width && y < height;
            let top = if height - 2 - rows > 0 {
                height - 2 - rows
            } else {
                0
            };
            &&& !inside ==> hit == MouseTarget::Nothing
            &&& inside && x < 22 ==> hit == MouseTarget::SidebarRow(y as usize)
            &&& inside && 22 <= x < 24 ==> hit == MouseTarget::Nothing
            &&& inside && 24 <= x && top <= y < top + rows ==> hit == MouseTarget::Composer
            &&& inside && 26 <= x < width - 2 && y < top ==> hit == MouseTarget::MessageRow(
                y as u16,
            )
            &&& inside && 24 <= x < 26 && y < top ==> hit == MouseTarget::Nothing
            &&& inside && width - 2 <= x && 24 <= x && y < top ==> hit == MouseTarget::Nothing
            &&& inside && 24 <= x && y >= top + rows ==> hit == MouseTarget::Nothing
        }),
{
}

} // verus!
