//! Theme: colour scheme plus font scheme, and the resolution of theme references to
//! concrete values.

use vstd::prelude::*;
use crate::color::{Rgba, ThemeColorToken};
use crate::font::{FontRef, Script, ScriptFonts, ScriptFontsView, ThemeFontSlot};

verus! {

/// The twelve OOXML theme colours.
#[derive(Clone, Copy, Debug, PartialEq, Eq)]
pub struct ThemeColors {
    pub dk1: Rgba,
    pub lt1: Rgba,
    pub dk2: Rgba,
    pub lt2: Rgba,
    pub accent: [Rgba; 6],
    pub hlink: Rgba,
    pub fol_hlink: Rgba,
}

#[derive(Clone, Debug, PartialEq, Eq)]
pub struct FontScheme {
    pub major: ScriptFonts,
    pub minor: ScriptFonts,
}

#[derive(Clone, Debug, PartialEq, Eq)]
pub struct Theme {
    pub colors: ThemeColors,
    pub fonts: FontScheme,
}

pub struct FontSchemeView {
    pub major: ScriptFontsView,
    pub minor: ScriptFontsView,
}

pub struct ThemeView {
    pub colors: ThemeColors,
    pub fonts: FontSchemeView,
}

impl View for FontScheme {
    type V = FontSchemeView;

    open spec fn view(&self) -> FontSchemeView {
        FontSchemeView { major: self.major@, minor: self.minor@ }
    }
}

impl View for Theme {
    type V = ThemeView;

    open spec fn view(&self) -> ThemeView {
        ThemeView { colors: self.colors, fonts: self.fonts@ }
    }
}

impl Theme {
    /// A copy of this theme.
    pub fn duplicate(&self) -> (r: Theme)
        ensures
            r@ == self@,
    {
        Theme {
            colors: self.colors,
            fonts: FontScheme { major: self.fonts.major.duplicate(), minor: self.fonts.minor.duplicate() },
        }
    }
}

/// The platform a document is created on; it decides the default font family.
#[derive(Clone, Copy, Debug, PartialEq, Eq, Structural)]
pub enum Platform {
    MacOs,
    Windows,
    /// Linux and every other platform.
    Other,
}

pub open spec fn spec_color_of(colors: ThemeColors, token: ThemeColorToken) -> Rgba {
    match token {
        ThemeColorToken::Dk1 => colors.dk1,
        ThemeColorToken::Lt1 => colors.lt1,
        ThemeColorToken::Dk2 => colors.dk2,
        ThemeColorToken::Lt2 => colors.lt2,
        ThemeColorToken::Accent1 => colors.accent@[0],
        ThemeColorToken::Accent2 => colors.accent@[1],
        ThemeColorToken::Accent3 => colors.accent@[2],
        ThemeColorToken::Accent4 => colors.accent@[3],
        ThemeColorToken::Accent5 => colors.accent@[4],
        ThemeColorToken::Accent6 => colors.accent@[5],
        ThemeColorToken::Hlink => colors.hlink,
        ThemeColorToken::FolHlink => colors.fol_hlink,
    }
}

/// The family a font reference names for a script, given a font scheme.
pub open spec fn spec_font_family(fonts: FontScheme, font: FontRef, script: Script) -> Seq<char> {
    match font {
        FontRef::Family(name) => name@,
        FontRef::Theme(slot) => {
            let sf = match slot {
                ThemeFontSlot::Major => fonts.major,
                ThemeFontSlot::Minor => fonts.minor,
            };
            match script {
                Script::Latin => sf.latin@,
                Script::Ea => sf.ea@,
                Script::Cs => sf.cs@,
            }
        },
    }
}

impl Theme {
    /// The concrete colour a theme token maps to (before any transform).
    pub fn color_for(&self, token: ThemeColorToken) -> (c: Rgba)
        ensures
            c == spec_color_of(self.colors, token),
    {
        match token {
            ThemeColorToken::Dk1 => self.colors.dk1,
            ThemeColorToken::Lt1 => self.colors.lt1,
            ThemeColorToken::Dk2 => self.colors.dk2,
            ThemeColorToken::Lt2 => self.colors.lt2,
            ThemeColorToken::Accent1 => self.colors.accent[0],
            ThemeColorToken::Accent2 => self.colors.accent[1],
            ThemeColorToken::Accent3 => self.colors.accent[2],
            ThemeColorToken::Accent4 => self.colors.accent[3],
            ThemeColorToken::Accent5 => self.colors.accent[4],
            ThemeColorToken::Accent6 => self.colors.accent[5],
            ThemeColorToken::Hlink => self.colors.hlink,
            ThemeColorToken::FolHlink => self.colors.fol_hlink,
        }
    }

    /// Resolve a font reference to a concrete family for the given script: a literal
    /// family is itself; a theme slot picks the slot's family for the script.
    pub fn font_family(&self, font: &FontRef, script: Script) -> (f: String)
        ensures
            f@ == spec_font_family(self.fonts, *font, script),
    {
        let fonts = match font {
            FontRef::Family(name) => {
                return name.clone();
            },
            FontRef::Theme(ThemeFontSlot::Major) => &self.fonts.major,
            FontRef::Theme(ThemeFontSlot::Minor) => &self.fonts.minor,
        };
        match script {
            Script::Latin => fonts.latin.clone(),
            Script::Ea => fonts.ea.clone(),
            Script::Cs => fonts.cs.clone(),
        }
    }

    /// The neutral light theme of new presentations, with the platform's default sans
    /// family for every script of both slots.
    pub fn default_for(platform: Platform) -> (t: Theme)
        ensures
            t.colors == default_colors_spec(),
            t.fonts.major.latin@ == spec_sans_family(platform),
            t.fonts.major.ea@ == spec_sans_family(platform),
            t.fonts.major.cs@ == spec_sans_family(platform),
            t.fonts.minor.latin@ == spec_sans_family(platform),
            t.fonts.minor.ea@ == spec_sans_family(platform),
            t.fonts.minor.cs@ == spec_sans_family(platform),
    {
        let fam = default_sans_family(platform);
        let major = ScriptFonts {
            latin: String::from_str(fam),
            ea: String::from_str(fam),
            cs: String::from_str(fam),
        };
        let minor = ScriptFonts {
            latin: String::from_str(fam),
            ea: String::from_str(fam),
            cs: String::from_str(fam),
        };
        Theme { colors: default_colors(), fonts: FontScheme { major, minor } }
    }
}

pub open spec fn spec_sans_family(platform: Platform) -> Seq<char> {
    match platform {
        Platform::MacOs => "Hiragino Sans"@,
        Platform::Windows => "Yu Gothic UI"@,
        Platform::Other => "Noto Sans CJK JP"@,
    }
}

/// The default sans-serif family of new presentations on `platform`: a system font that
/// ships with the platform and covers both Latin and CJK text.
pub fn default_sans_family(platform: Platform) -> (f: &'static str)
    ensures
        f@ == spec_sans_family(platform),
{
    match platform {
        Platform::MacOs => "Hiragino Sans",
        Platform::Windows => "Yu Gothic UI",
        Platform::Other => "Noto Sans CJK JP",
    }
}

pub open spec fn rgb(r: u8, g: u8, b: u8) -> Rgba {
    Rgba { r, g, b, a: 255 }
}

pub open spec fn default_colors_spec() -> ThemeColors {
    ThemeColors {
        dk1: rgb(0, 0, 0),
        lt1: rgb(255, 255, 255),
        dk2: rgb(68, 68, 68),
        lt2: rgb(238, 238, 238),
        accent: [
            rgb(0x4F, 0x81, 0xBD),
            rgb(0xC0, 0x50, 0x4D),
            rgb(0x9B, 0xBB, 0x59),
            rgb(0x80, 0x64, 0xA2),
            rgb(0x4B, 0xAC, 0xC6),
            rgb(0xF7, 0x96, 0x46),
        ],
        hlink: rgb(0x00, 0x00, 0xEE),
        fol_hlink: rgb(0x80, 0x00, 0x80),
    }
}

/// The colour scheme of the default theme.
pub fn default_colors() -> (c: ThemeColors)
    ensures
        c == default_colors_spec(),
{
    ThemeColors {
        dk1: Rgba::rgb(0, 0, 0),
        lt1: Rgba::rgb(255, 255, 255),
        dk2: Rgba::rgb(68, 68, 68),
        lt2: Rgba::rgb(238, 238, 238),
        accent: [
            Rgba::rgb(0x4F, 0x81, 0xBD),
            Rgba::rgb(0xC0, 0x50, 0x4D),
            Rgba::rgb(0x9B, 0xBB, 0x59),
            Rgba::rgb(0x80, 0x64, 0xA2),
            Rgba::rgb(0x4B, 0xAC, 0xC6),
            Rgba::rgb(0xF7, 0x96, 0x46),
        ],
        hlink: Rgba::rgb(0x00, 0x00, 0xEE),
        fol_hlink: Rgba::rgb(0x80, 0x00, 0x80),
    }
}

/// Colours shared by the non-default presets: only the accents and `dk2` differ.
pub open spec fn preset_base_spec(accent: [Rgba; 6], dk2: Rgba) -> ThemeColors {
    ThemeColors {
        dk1: rgb(0, 0, 0),
        lt1: rgb(255, 255, 255),
        dk2,
        lt2: rgb(238, 238, 238),
        accent,
        hlink: rgb(0x00, 0x00, 0xEE),
        fol_hlink: rgb(0x80, 0x00, 0x80),
    }
}

fn preset_base(accent: [Rgba; 6], dk2: Rgba) -> (c: ThemeColors)
    ensures
        c == preset_base_spec(accent, dk2),
{
    ThemeColors {
        dk1: Rgba::rgb(0, 0, 0),
        lt1: Rgba::rgb(255, 255, 255),
        dk2,
        lt2: Rgba::rgb(238, 238, 238),
        accent,
        hlink: Rgba::rgb(0x00, 0x00, 0xEE),
        fol_hlink: Rgba::rgb(0x80, 0x00, 0x80),
    }
}

pub open spec fn preset_names_spec() -> Seq<Seq<char>> {
    seq!["Office"@, "Warm"@, "Cool"@, "Mono"@]
}

pub open spec fn preset_colors_spec() -> Seq<ThemeColors> {
    seq![
        default_colors_spec(),
        preset_base_spec(
            [
                rgb(0xC0, 0x39, 0x2B),
                rgb(0xE6, 0x7E, 0x22),
                rgb(0xF1, 0xC4, 0x0F),
                rgb(0xD3, 0x5F, 0x5F),
                rgb(0xA9, 0x3A, 0x26),
                rgb(0x8E, 0x44, 0x22),
            ],
            rgb(0x5A, 0x2A, 0x1E),
        ),
        preset_base_spec(
            [
                rgb(0x2E, 0x86, 0xC1),
                rgb(0x16, 0xA0, 0x85),
                rgb(0x6C, 0x3A, 0xB7),
                rgb(0x21, 0x9E, 0xBC),
                rgb(0x27, 0xAE, 0x60),
                rgb(0x34, 0x95, 0xDB),
            ],
            rgb(0x1B, 0x2A, 0x4A),
        ),
        preset_base_spec(
            [
                rgb(0x33, 0x33, 0x33),
                rgb(0x55, 0x55, 0x55),
                rgb(0x77, 0x77, 0x77),
                rgb(0x99, 0x99, 0x99),
                rgb(0xBB, 0xBB, 0xBB),
                rgb(0x22, 0x22, 0x22),
            ],
            rgb(0x33, 0x33, 0x33),
        ),
    ]
}

/// The names of the built-in colour presets, in the order of [`theme_color_presets`] (the
/// index selects a preset).
pub fn theme_color_preset_names() -> (names: Vec<&'static str>)
    ensures
        names@.len() == 4,
        forall|i: int| 0 <= i < 4 ==> #[trigger] names@[i]@ == preset_names_spec()[i],
{
    let mut v: Vec<&'static str> = Vec::new();
    v.push("Office");
    v.push("Warm");
    v.push("Cool");
    v.push("Mono");
    v
}

/// The built-in colour schemes (name and colours) that can be applied to a master's theme.
pub fn theme_color_presets() -> (presets: Vec<(&'static str, ThemeColors)>)
    ensures
        presets@.len() == 4,
        forall|i: int|
            0 <= i < 4 ==> #[trigger] presets@[i].0@ == preset_names_spec()[i] && presets@[i].1
                == preset_colors_spec()[i],
{
    let mut v: Vec<(&'static str, ThemeColors)> = Vec::new();
    v.push(("Office", default_colors()));
    v.push(
        (
            "Warm",
            preset_base(
                [
                    Rgba::rgb(0xC0, 0x39, 0x2B),
                    Rgba::rgb(0xE6, 0x7E, 0x22),
                    Rgba::rgb(0xF1, 0xC4, 0x0F),
                    Rgba::rgb(0xD3, 0x5F, 0x5F),
                    Rgba::rgb(0xA9, 0x3A, 0x26),
                    Rgba::rgb(0x8E, 0x44, 0x22),
                ],
                Rgba::rgb(0x5A, 0x2A, 0x1E),
            ),
        ),
    );
    v.push(
        (
            "Cool",
            preset_base(
                [
                    Rgba::rgb(0x2E, 0x86, 0xC1),
                    Rgba::rgb(0x16, 0xA0, 0x85),
                    Rgba::rgb(0x6C, 0x3A, 0xB7),
                    Rgba::rgb(0x21, 0x9E, 0xBC),
                    Rgba::rgb(0x27, 0xAE, 0x60),
                    Rgba::rgb(0x34, 0x95, 0xDB),
                ],
                Rgba::rgb(0x1B, 0x2A, 0x4A),
            ),
        ),
    );
    v.push(
        (
            "Mono",
            preset_base(
                [
                    Rgba::rgb(0x33, 0x33, 0x33),
                    Rgba::rgb(0x55, 0x55, 0x55),
                    Rgba::rgb(0x77, 0x77, 0x77),
                    Rgba::rgb(0x99, 0x99, 0x99),
                    Rgba::rgb(0xBB, 0xBB, 0xBB),
                    Rgba::rgb(0x22, 0x22, 0x22),
                ],
                Rgba::rgb(0x33, 0x33, 0x33),
            ),
        ),
    );
    v
}

/// Accent `slot` of each built-in colour scheme, in preset order.
pub open spec fn accent_candidates(slot: int) -> Seq<Rgba> {
    Seq::new(4, |p: int| preset_colors_spec()[p].accent@[slot])
}

/// The accent that follows `current` in slot `slot`: the next preset's accent after the first
/// preset whose accent equals `current`, wrapping around; the first preset's accent when
/// none equals it (or there is no current accent).
pub open spec fn next_accent_spec(current: Option<Rgba>, slot: int) -> Rgba {
    let c = accent_candidates(slot);
    match current {
        Some(cur) => if exists|p: int| 0 <= p < 4 && c[p] == cur {
            let p = choose|p: int| 0 <= p < 4 && c[p] == cur && forall|q: int| 0 <= q < p ==> c[q] != cur;
            c[(p + 1) % 4]
        } else {
            c[0]
        },
        None => c[0],
    }
}

/// Cycle accent `slot` (one of six) through the presets' colours for that slot, from the
/// theme's `current` accent; `None` for a slot past the sixth.
pub fn next_accent(current: Option<Rgba>, slot: usize) -> (r: Option<Rgba>)
    ensures
        slot >= 6 ==> r is None,
        slot < 6 ==> r == Some(next_accent_spec(current, slot as int)),
{
    if slot >= 6 {
        return None;
    }
    let presets = theme_color_presets();
    let ghost c = accent_candidates(slot as int);
    proof {
        assert forall|p: int| 0 <= p < 4 implies #[trigger] presets@[p].1.accent@[slot as int] == c[p] by {
            assert(presets@[p].0@ == preset_names_spec()[p]);
            assert(presets@[p].1 == preset_colors_spec()[p]);
        }
    }
    if let Some(cur) = current {
        let mut p: usize = 0;
        while p < presets.len()
            invariant
                p <= 4,
                presets@.len() == 4,
                slot < 6,
                c == accent_candidates(slot as int),
                current == Some(cur),
                forall|q: int| 0 <= q < 4 ==> #[trigger] presets@[q].1.accent@[slot as int] == c[q],
                forall|q: int| 0 <= q < p ==> c[q] != cur,
            decreases presets.len() - p,
        {
            if presets[p].1.accent[slot] == cur {
                proof {
                    assert(c[p as int] == cur);
                    assert(0 <= p < 4 && c[p as int] == cur && forall|q: int| 0 <= q < p ==> c[q] != cur);
                    let f = choose|f: int| 0 <= f < 4 && c[f] == cur && forall|q: int| 0 <= q < f ==> c[q] != cur;
                    if f < p {
                        assert(c[f] != cur);
                    } else if p < f {
                        assert(c[p as int] != cur);
                    }
                }
                let n = (p + 1) % 4;
                let r = presets[n].1.accent[slot];
                proof {
                    assert(c[p as int] == cur);
                    assert(r == presets@[n as int].1.accent@[slot as int]);
                    assert(r == c[(p + 1) % 4]);
                    assert(current == Some(cur));
                    assert(next_accent_spec(current, slot as int) == c[(p + 1) % 4]);
                }
                return Some(r);
            }
            p = p + 1;
        }
    }
    let r = presets[0].1.accent[slot];
    proof {
        assert(r == presets@[0].1.accent@[slot as int]);
    }
    Some(r)
}

/// The six accent tokens, in order, read the six entries of the scheme's accent array in
/// order, and every other token reads the scheme colour of its own name.
pub proof fn law_theme_tokens(c: ThemeColors)
    ensures
        seq![
            spec_color_of(c, ThemeColorToken::Accent1),
            spec_color_of(c, ThemeColorToken::Accent2),
            spec_color_of(c, ThemeColorToken::Accent3),
            spec_color_of(c, ThemeColorToken::Accent4),
            spec_color_of(c, ThemeColorToken::Accent5),
            spec_color_of(c, ThemeColorToken::Accent6),
        ] == c.accent@,
        spec_color_of(c, ThemeColorToken::Dk1) == c.dk1,
        spec_color_of(c, ThemeColorToken::Lt1) == c.lt1,
        spec_color_of(c, ThemeColorToken::Dk2) == c.dk2,
        spec_color_of(c, ThemeColorToken::Lt2) == c.lt2,
        spec_color_of(c, ThemeColorToken::Hlink) == c.hlink,
        spec_color_of(c, ThemeColorToken::FolHlink) == c.fol_hlink,
{
    assert(c.accent@.len() == 6);
    assert(seq![
        spec_color_of(c, ThemeColorToken::Accent1),
        spec_color_of(c, ThemeColorToken::Accent2),
        spec_color_of(c, ThemeColorToken::Accent3),
        spec_color_of(c, ThemeColorToken::Accent4),
        spec_color_of(c, ThemeColorToken::Accent5),
        spec_color_of(c, ThemeColorToken::Accent6),
    ] =~= c.accent@);
}

/// Font references resolve by slot and script: a literal family names itself for every
/// script, the major slot gives the scheme's major family of the script (Latin, East-Asian,
/// complex) and the minor slot the minor one.
pub proof fn law_theme_fonts(fonts: FontScheme, name: String, script: Script)
    ensures
        spec_font_family(fonts, FontRef::Family(name), script) == name@,
        spec_font_family(fonts, FontRef::Theme(ThemeFontSlot::Major), Script::Latin) == fonts.major.latin@,
        spec_font_family(fonts, FontRef::Theme(ThemeFontSlot::Major), Script::Ea) == fonts.major.ea@,
        spec_font_family(fonts, FontRef::Theme(ThemeFontSlot::Major), Script::Cs) == fonts.major.cs@,
        spec_font_family(fonts, FontRef::Theme(ThemeFontSlot::Minor), Script::Latin) == fonts.minor.latin@,
        spec_font_family(fonts, FontRef::Theme(ThemeFontSlot::Minor), Script::Ea) == fonts.minor.ea@,
        spec_font_family(fonts, FontRef::Theme(ThemeFontSlot::Minor), Script::Cs) == fonts.minor.cs@,
{
}

/// Distinct accent tokens read distinct accent slots: two tokens give the same colour on
/// every scheme only when they are the same token.
pub proof fn law_accent_tokens_distinct(c: ThemeColors, i: int, j: int)
    requires
        0 <= i < 6,
        0 <= j < 6,
        i != j,
        c.accent@[i] != c.accent@[j],
    ensures
        spec_color_of(c, accent_token(i)) != spec_color_of(c, accent_token(j)),
        spec_color_of(c, accent_token(i)) == c.accent@[i],
{
}

/// The accent token for slot `i` (0 to 5): `Accent1` to `Accent6`.
pub open spec fn accent_token(i: int) -> ThemeColorToken {
    if i == 0 {
        ThemeColorToken::Accent1
    } else if i == 1 {
        ThemeColorToken::Accent2
    } else if i == 2 {
        ThemeColorToken::Accent3
    } else if i == 3 {
        ThemeColorToken::Accent4
    } else if i == 4 {
        ThemeColorToken::Accent5
    } else {
        ThemeColorToken::Accent6
    }
}

} // verus!
