//! Slide-coordinate geometry (in EMU).

use vstd::prelude::*;

verus! {

#[derive(Clone, Copy, Debug, Default, PartialEq, Eq, Structural)]
pub struct PointEmu {
    pub x: i64,
    pub y: i64,
}

#[derive(Clone, Copy, Debug, Default, PartialEq, Eq, Structural)]
pub struct SizeEmu {
    pub w: i64,
    pub h: i64,
}

#[derive(Clone, Copy, Debug, Default, PartialEq, Eq, Structural)]
pub struct RectEmu {
    pub origin: PointEmu,
    pub size: SizeEmu,
}

/// Rust's integer division by two, which rounds toward zero.
pub open spec fn half_toward_zero(v: int) -> int {
    if v >= 0 {
        v / 2
    } else {
        -((-v) / 2)
    }
}

impl PointEmu {
    pub fn new(x: i64, y: i64) -> (p: Self)
        ensures
            p.x == x,
            p.y == y,
    {
        PointEmu { x, y }
    }
}

impl SizeEmu {
    pub fn new(w: i64, h: i64) -> (s: Self)
        ensures
            s.w == w,
            s.h == h,
    {
        SizeEmu { w, h }
    }
}

impl RectEmu {
    pub open spec fn spec_right(&self) -> int {
        self.origin.x + self.size.w
    }

    pub open spec fn spec_bottom(&self) -> int {
        self.origin.y + self.size.h
    }

    /// Axis-aligned containment, half-open on the right and bottom edges.
    pub open spec fn spec_contains(&self, p: PointEmu) -> bool {
        &&& self.origin.x <= p.x < self.spec_right()
        &&& self.origin.y <= p.y < self.spec_bottom()
    }

    pub fn new(x: i64, y: i64, w: i64, h: i64) -> (r: Self)
        ensures
            r.origin.x == x,
            r.origin.y == y,
            r.size.w == w,
            r.size.h == h,
    {
        RectEmu { origin: PointEmu::new(x, y), size: SizeEmu::new(w, h) }
    }

    pub fn right(&self) -> (r: i64)
        requires
            i64::MIN <= self.spec_right() <= i64::MAX,
        ensures
            r == self.spec_right(),
    {
        self.origin.x + self.size.w
    }

    pub fn bottom(&self) -> (b: i64)
        requires
            i64::MIN <= self.spec_bottom() <= i64::MAX,
        ensures
            b == self.spec_bottom(),
    {
        self.origin.y + self.size.h
    }

    /// The centre point: origin plus half the size, each half rounded toward zero.
    pub fn center(&self) -> (c: PointEmu)
        requires
            i64::MIN <= self.origin.x + half_toward_zero(self.size.w as int) <= i64::MAX,
            i64::MIN <= self.origin.y + half_toward_zero(self.size.h as int) <= i64::MAX,
        ensures
            c.x == self.origin.x + half_toward_zero(self.size.w as int),
            c.y == self.origin.y + half_toward_zero(self.size.h as int),
    {
        PointEmu::new(self.origin.x + self.size.w / 2, self.origin.y + self.size.h / 2)
    }

    /// Axis-aligned containment (before rotation is applied).
    pub fn contains(&self, p: PointEmu) -> (b: bool)
        requires
            i64::MIN <= self.spec_right() <= i64::MAX,
            i64::MIN <= self.spec_bottom() <= i64::MAX,
        ensures
            b == self.spec_contains(p),
    {
        p.x >= self.origin.x && p.x < self.right() && p.y >= self.origin.y && p.y < self.bottom()
    }
}

} // verus!
