//! Placement of the picker window near the cursor, inside the monitor's
//! work area.

use vstd::prelude::*;

verus! {

/// Picker size in physical px.
pub const PICKER_W: i32 = 720;
pub const PICKER_H: i32 = 460;
/// Offset of the picker's top-left corner from the cursor.
pub const CURSOR_DX: i32 = 12;
pub const CURSOR_DY: i32 = 24;

pub open spec fn min_i(a: int, b: int) -> int {
    if a <= b { a } else { b }
}

pub open spec fn max_i(a: int, b: int) -> int {
    if a >= b { a } else { b }
}

/// The clamped coordinate: at most `hi`, then at least `lo`.
pub open spec fn clamp_spec(v: int, lo: int, hi: int) -> int {
    max_i(min_i(v, hi), lo)
}

/// Clamp a top-left window position so a `w` x `h` window stays inside the
/// work area `(left, top, right, bottom)`.
pub fn clamp_to_work_area(x: i32, y: i32, w: i32, h: i32, work: (i32, i32, i32, i32)) -> (r: (
    i32,
    i32,
))
    requires
        i32::MIN <= work.2 - w <= i32::MAX,
        i32::MIN <= work.3 - h <= i32::MAX,
    ensures
        r.0 == clamp_spec(x as int, work.0 as int, work.2 - w),
        r.1 == clamp_spec(y as int, work.1 as int, work.3 - h),
{
    let (left, top, right, bottom) = work;
    let hx = right - w;
    let hy = bottom - h;
    let cx = if x <= hx { x } else { hx };
    let cx = if cx >= left { cx } else { left };
    let cy = if y <= hy { y } else { hy };
    let cy = if cy >= top { cy } else { top };
    (cx, cy)
}

/// Where the picker opens for a cursor at `(x, y)`: just below-right of the
/// cursor, kept inside the work area.
pub fn picker_origin(x: i32, y: i32, work: (i32, i32, i32, i32)) -> (r: (i32, i32))
    requires
        x + CURSOR_DX <= i32::MAX,
        y + CURSOR_DY <= i32::MAX,
        i32::MIN <= work.2 - PICKER_W,
        i32::MIN <= work.3 - PICKER_H,
    ensures
        r.0 == clamp_spec(x + CURSOR_DX, work.0 as int, work.2 - PICKER_W),
        r.1 == clamp_spec(y + CURSOR_DY, work.1 as int, work.3 - PICKER_H),
{
    clamp_to_work_area(x + CURSOR_DX, y + CURSOR_DY, PICKER_W, PICKER_H, work)
}

/// A window that fits the work area ends up wholly inside it, and one that
/// is already inside does not move.
pub proof fn law_clamp_keeps_window_inside(v: int, lo: int, hi_edge: int, size: int)
    requires
        size >= 0,
        hi_edge - lo >= size,
    ensures
        lo <= clamp_spec(v, lo, hi_edge - size),
        clamp_spec(v, lo, hi_edge - size) + size <= hi_edge,
        lo <= v && v + size <= hi_edge ==> clamp_spec(v, lo, hi_edge - size) == v,
{
}

} // verus!
