//! Resizing a shape's frame by dragging one of its eight handles.
//!
//! Handles are numbered clockwise from the top-left corner: 0 top-left, 1 top, 2 top-right,
//! 3 right, 4 bottom-right, 5 bottom, 6 bottom-left, 7 left.

use crate::geom::{PointEmu, RectEmu, SizeEmu};
use vstd::prelude::*;

verus! {

/// The smallest width or height a drag can leave: one point.
pub const MIN_FRAME_EMU: i64 = 12_700;

/// The handle drags the right edge.
pub open spec fn drags_right(handle: usize) -> bool {
    handle == 2 || handle == 3 || handle == 4
}

/// The handle drags the left edge.
pub open spec fn drags_left(handle: usize) -> bool {
    handle == 0 || handle == 6 || handle == 7
}

/// The handle drags the bottom edge.
pub open spec fn drags_bottom(handle: usize) -> bool {
    handle == 4 || handle == 5 || handle == 6
}

/// The handle drags the top edge.
pub open spec fn drags_top(handle: usize) -> bool {
    handle == 0 || handle == 1 || handle == 2
}

/// Width after the drag, before clamping.
pub open spec fn dragged_w(handle: usize, start: RectEmu, dx: i64) -> int {
    if drags_right(handle) {
        start.size.w + dx
    } else if drags_left(handle) {
        start.size.w - dx
    } else {
        start.size.w as int
    }
}

/// Height after the drag, before clamping.
pub open spec fn dragged_h(handle: usize, start: RectEmu, dy: i64) -> int {
    if drags_bottom(handle) {
        start.size.h + dy
    } else if drags_top(handle) {
        start.size.h - dy
    } else {
        start.size.h as int
    }
}

pub open spec fn at_least_min(v: int) -> int {
    if v < MIN_FRAME_EMU {
        MIN_FRAME_EMU as int
    } else {
        v
    }
}

/// The arithmetic of a drag stays within `i64`.
pub open spec fn resize_in_range(handle: usize, start: RectEmu, dx: i64, dy: i64) -> bool {
    &&& i64::MIN <= start.spec_right() <= i64::MAX
    &&& i64::MIN <= start.spec_bottom() <= i64::MAX
    &&& i64::MIN <= dragged_w(handle, start, dx) <= i64::MAX
    &&& i64::MIN <= dragged_h(handle, start, dy) <= i64::MAX
    &&& drags_left(handle) ==> i64::MIN <= start.spec_right() - at_least_min(
        dragged_w(handle, start, dx),
    )
    &&& drags_top(handle) ==> i64::MIN <= start.spec_bottom() - at_least_min(
        dragged_h(handle, start, dy),
    )
}

/// New frame when dragging resize `handle` by (`dx`, `dy`) EMU from `start`. Axis-aligned:
/// the dragged edges move, the opposite edges stay fixed, and the width and height are
/// clamped to at least one point.
pub fn resize_frame(handle: usize, start: RectEmu, dx: i64, dy: i64) -> (r: RectEmu)
    requires
        resize_in_range(handle, start, dx, dy),
    ensures
        r.size.w == at_least_min(dragged_w(handle, start, dx)),
        r.size.h == at_least_min(dragged_h(handle, start, dy)),
        r.origin.x == (if drags_left(handle) {
            start.spec_right() - r.size.w
        } else {
            start.origin.x as int
        }),
        r.origin.y == (if drags_top(handle) {
            start.spec_bottom() - r.size.h
        } else {
            start.origin.y as int
        }),
        r.size.w >= MIN_FRAME_EMU,
        r.size.h >= MIN_FRAME_EMU,
        drags_left(handle) ==> r.spec_right() == start.spec_right(),
        drags_top(handle) ==> r.spec_bottom() == start.spec_bottom(),
{
    let min = MIN_FRAME_EMU;
    let right0 = start.origin.x + start.size.w;
    let bottom0 = start.origin.y + start.size.h;
    let mut w = start.size.w;
    let mut h = start.size.h;
    let right = handle == 2 || handle == 3 || handle == 4;
    let left = handle == 0 || handle == 6 || handle == 7;
    let bottom = handle == 4 || handle == 5 || handle == 6;
    let top = handle == 0 || handle == 1 || handle == 2;
    if right {
        w = start.size.w + dx;
    }
    if left {
        w = start.size.w - dx;
    }
    if bottom {
        h = start.size.h + dy;
    }
    if top {
        h = start.size.h - dy;
    }
    if w < min {
        w = min;
    }
    if h < min {
        h = min;
    }
    let x = if left {
        right0 - w
    } else {
        start.origin.x
    };
    let y = if top {
        bottom0 - h
    } else {
        start.origin.y
    };
    RectEmu { origin: PointEmu::new(x, y), size: SizeEmu::new(w, h) }
}

} // verus!
