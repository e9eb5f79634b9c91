//! Length units. The base length unit is the EMU (English Metric Unit), the unit of OOXML:
//! `914400 EMU = 1 inch`, `12700 EMU = 1 pt`.

use vstd::prelude::*;

verus! {

/// English Metric Unit.
pub type Emu = i64;

pub const EMU_PER_INCH: i64 = 914_400;

pub const EMU_PER_PT: i64 = 12_700;

pub const EMU_PER_CM: i64 = 360_000;

/// Milliseconds, used for animation timing.
pub type Ms = u32;

/// Whole points to EMU. The product must fit in an `i64`.
pub fn pt(v: i64) -> (r: i64)
    requires
        i64::MIN <= v * EMU_PER_PT <= i64::MAX,
    ensures
        r == v * EMU_PER_PT,
{
    v * EMU_PER_PT
}

} // verus!
