//! Vector shape geometry. Its presence marks an entity as a vector shape.

use vstd::prelude::*;

verus! {

#[derive(Clone, Copy, Debug, PartialEq, Eq, Structural)]
pub enum Geometry {
    Rect,
    /// A rectangle with rounded corners; the corner radius is in EMU.
    RoundRect { radius: i64 },
    Ellipse,
    /// A straight line along the diagonal of the frame, from its top-left to its
    /// bottom-right; with an arrowhead at the end when `arrow` is set.
    Line { arrow: bool },
}

} // verus!
