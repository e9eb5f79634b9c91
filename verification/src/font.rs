//! Font references. A run's font is either a literal family or a theme slot that is
//! resolved per script through the master's theme.

use vstd::prelude::*;

verus! {

#[derive(Clone, Copy, Debug, PartialEq, Eq, Structural)]
pub enum ThemeFontSlot {
    /// Heading font.
    Major,
    /// Body font.
    Minor,
}

#[derive(Clone, Debug, PartialEq, Eq)]
pub enum FontRef {
    Family(String),
    Theme(ThemeFontSlot),
}

/// The script class of a run of text, which selects one of a slot's families.
#[derive(Clone, Copy, Debug, PartialEq, Eq, Structural)]
pub enum Script {
    /// Latin and other simple scripts.
    Latin,
    /// East-Asian scripts (e.g. Japanese).
    Ea,
    /// Complex scripts.
    Cs,
}

/// Per-script font families for one theme slot.
#[derive(Clone, Debug, PartialEq, Eq)]
pub struct ScriptFonts {
    pub latin: String,
    pub ea: String,
    pub cs: String,
}

pub enum FontRefView {
    Family(Seq<char>),
    Theme(ThemeFontSlot),
}

impl View for FontRef {
    type V = FontRefView;

    open spec fn view(&self) -> FontRefView {
        match self {
            FontRef::Family(s) => FontRefView::Family(s@),
            FontRef::Theme(t) => FontRefView::Theme(*t),
        }
    }
}

impl FontRef {
    /// A copy of this reference.
    pub fn duplicate(&self) -> (r: FontRef)
        ensures
            r@ == self@,
    {
        match self {
            FontRef::Family(s) => FontRef::Family(s.clone()),
            FontRef::Theme(t) => FontRef::Theme(*t),
        }
    }
}

pub struct ScriptFontsView {
    pub latin: Seq<char>,
    pub ea: Seq<char>,
    pub cs: Seq<char>,
}

impl View for ScriptFonts {
    type V = ScriptFontsView;

    open spec fn view(&self) -> ScriptFontsView {
        ScriptFontsView { latin: self.latin@, ea: self.ea@, cs: self.cs@ }
    }
}

impl ScriptFonts {
    /// A copy of these families.
    pub fn duplicate(&self) -> (r: ScriptFonts)
        ensures
            r@ == self@,
    {
        ScriptFonts { latin: self.latin.clone(), ea: self.ea.clone(), cs: self.cs.clone() }
    }
}

} // verus!
