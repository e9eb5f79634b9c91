//! Rich text model: logical content only.

use vstd::prelude::*;
use crate::color::Color;
use crate::font::{FontRef, FontRefView};

verus! {

/// Bit pattern of the `f32` value `1.0` (single line spacing).
pub const SINGLE_SPACING: u32 = 0x3F80_0000u32;

#[derive(Clone, Copy, Debug, PartialEq, Eq, Structural)]
pub enum HAlign {
    Left,
    Center,
    Right,
    Justify,
}

/// Text content of a text box.
#[derive(Clone, Debug, PartialEq, Eq)]
pub struct TextBody {
    pub paragraphs: Vec<Paragraph>,
    /// Shrink text to fit the box.
    pub autofit: bool,
}

#[derive(Clone, Debug, PartialEq, Eq)]
pub struct Paragraph {
    pub runs: Vec<Run>,
    pub align: HAlign,
    /// Bullet level (0 = no bullet).
    pub bullet_level: u8,
    /// Line spacing as a multiple of single spacing, as the bit pattern of an `f32`.
    pub line_spacing: u32,
}

/// A contiguous span of text sharing formatting.
#[derive(Clone, Debug, PartialEq, Eq)]
pub struct Run {
    pub text: String,
    pub font: FontRef,
    /// Font size in EMU.
    pub size: i64,
    pub color: Color,
    pub bold: bool,
    pub italic: bool,
    pub underline: bool,
}

pub struct RunView {
    pub text: Seq<char>,
    pub font: FontRefView,
    pub size: i64,
    pub color: Color,
    pub bold: bool,
    pub italic: bool,
    pub underline: bool,
}

pub struct ParagraphView {
    pub runs: Seq<RunView>,
    pub align: HAlign,
    pub bullet_level: u8,
    pub line_spacing: u32,
}

pub struct TextBodyView {
    pub paragraphs: Seq<ParagraphView>,
    pub autofit: bool,
}

impl View for Run {
    type V = RunView;

    open spec fn view(&self) -> RunView {
        RunView {
            text: self.text@,
            font: self.font@,
            size: self.size,
            color: self.color,
            bold: self.bold,
            italic: self.italic,
            underline: self.underline,
        }
    }
}

impl View for Paragraph {
    type V = ParagraphView;

    open spec fn view(&self) -> ParagraphView {
        ParagraphView {
            runs: self.runs@.map_values(|r: Run| r@),
            align: self.align,
            bullet_level: self.bullet_level,
            line_spacing: self.line_spacing,
        }
    }
}

impl View for TextBody {
    type V = TextBodyView;

    open spec fn view(&self) -> TextBodyView {
        TextBodyView { paragraphs: self.paragraphs@.map_values(|p: Paragraph| p@), autofit: self.autofit }
    }
}

impl Run {
    /// A copy of this run.
    pub fn duplicate(&self) -> (r: Run)
        ensures
            r@ == self@,
    {
        Run {
            text: self.text.clone(),
            font: self.font.duplicate(),
            size: self.size,
            color: self.color,
            bold: self.bold,
            italic: self.italic,
            underline: self.underline,
        }
    }
}

impl Paragraph {
    /// A copy of this paragraph.
    pub fn duplicate(&self) -> (r: Paragraph)
        ensures
            r@ == self@,
    {
        let mut runs: Vec<Run> = Vec::new();
        let mut i: usize = 0;
        while i < self.runs.len()
            invariant
                i <= self.runs@.len(),
                runs@.len() == i,
                forall|j: int| 0 <= j < i ==> #[trigger] runs@[j]@ == self.runs@[j]@,
            decreases self.runs@.len() - i,
        {
            runs.push(self.runs[i].duplicate());
            i = i + 1;
        }
        let r = Paragraph {
            runs,
            align: self.align,
            bullet_level: self.bullet_level,
            line_spacing: self.line_spacing,
        };
        assert(r@.runs =~= self@.runs);
        r
    }

    /// A left-aligned, single-spaced paragraph without a bullet.
    pub fn new(runs: Vec<Run>) -> (p: Self)
        ensures
            p.runs == runs,
            p.align == HAlign::Left,
            p.bullet_level == 0,
            p.line_spacing == SINGLE_SPACING,
    {
        Paragraph { runs, align: HAlign::Left, bullet_level: 0, line_spacing: SINGLE_SPACING }
    }
}

impl TextBody {
    /// A copy of this text body.
    pub fn duplicate(&self) -> (r: TextBody)
        ensures
            r@ == self@,
    {
        let mut paragraphs: Vec<Paragraph> = Vec::new();
        let mut i: usize = 0;
        while i < self.paragraphs.len()
            invariant
                i <= self.paragraphs@.len(),
                paragraphs@.len() == i,
                forall|j: int| 0 <= j < i ==> #[trigger] paragraphs@[j]@ == self.paragraphs@[j]@,
            decreases self.paragraphs@.len() - i,
        {
            paragraphs.push(self.paragraphs[i].duplicate());
            i = i + 1;
        }
        let r = TextBody { paragraphs, autofit: self.autofit };
        assert(r@.paragraphs =~= self@.paragraphs);
        r
    }
}

} // verus!
