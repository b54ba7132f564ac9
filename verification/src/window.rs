//! Placement of the main window on its monitor's work area.
use vstd::prelude::*;

verus! {

/// The size and position of the main window.
pub struct WindowPlacement {
    pub width: u32,
    pub height: u32,
    pub x: i32,
    pub y: i32,
}

/// Places the main window: as wide as it is but no wider than the work area,
/// `target_height` high (80% of the work area, computed by the caller),
/// centred in the work area (`work_x`, `work_y`, `work_width`,
/// `work_height`), a window larger than the area starting at its corner.
pub fn window_placement(
    work_x: i32,
    work_y: i32,
    work_width: u32,
    work_height: u32,
    outer_width: u32,
    target_height: u32,
) -> (r: WindowPlacement)
    requires
        i32::MIN <= work_x + (work_width - if outer_width <= work_width { outer_width } else { work_width }) / 2 <= i32::MAX,
        i32::MIN <= work_y + (if target_height <= work_height { work_height - target_height } else { 0 }) / 2 <= i32::MAX,
    ensures
        r.width == (if outer_width <= work_width { outer_width } else { work_width }),
        r.height == target_height,
        r.x == work_x + (work_width - r.width) / 2,
        r.y == work_y + (if target_height <= work_height { work_height - target_height } else { 0 }) / 2,
{
    let width = if outer_width <= work_width { outer_width } else { work_width };
    let free_x: u32 = (work_width - width) / 2;
    let free_y: u32 = work_height.saturating_sub(target_height) / 2;
    let x = work_x + free_x as i32;
    let y = work_y + free_y as i32;
    WindowPlacement { width, height: target_height, x, y }
}

} // verus!
