//! Fill and stroke of shapes. Colours may be literal or theme references.

use vstd::prelude::*;
use crate::color::Color;

verus! {

/// How a shape's interior is painted.
#[derive(Clone, Copy, Debug, PartialEq, Eq, Structural)]
pub enum Fill {
    Solid(Color),
    /// A two-stop linear gradient; `angle_deg` is the bit pattern of the `f32` direction in
    /// degrees (0 = left to right).
    Linear { from: Color, to: Color, angle_deg: u32 },
}

/// Outline of a shape: colour, width in EMU and an optional dash pattern (on/off lengths
/// in EMU; `None` is solid).
#[derive(Clone, Debug, PartialEq, Eq)]
pub struct Stroke {
    pub color: Color,
    pub width: i64,
    pub dash: Option<Vec<i64>>,
}

/// The content of a stroke, with the dash pattern seen as a sequence.
pub struct StrokeView {
    pub color: Color,
    pub width: i64,
    pub dash: Option<Seq<i64>>,
}

impl View for Stroke {
    type V = StrokeView;

    open spec fn view(&self) -> StrokeView {
        StrokeView {
            color: self.color,
            width: self.width,
            dash: match self.dash {
                Some(d) => Some(d@),
                None => None,
            },
        }
    }
}

impl Stroke {
    /// A copy of this stroke.
    pub fn duplicate(&self) -> (r: Stroke)
        ensures
            r@ == self@,
    {
        let dash = match &self.dash {
            Some(d) => Some(d.clone()),
            None => None,
        };
        let r = Stroke { color: self.color, width: self.width, dash };
        proof {
            if self.dash is Some {
                assert(r.dash.unwrap()@ =~= self.dash.unwrap()@);
            }
        }
        r
    }

    /// A solid stroke.
    pub fn solid(color: Color, width: i64) -> (s: Self)
        ensures
            s.color == color,
            s.width == width,
            s.dash is None,
    {
        Stroke { color, width, dash: None }
    }
}

} // verus!
