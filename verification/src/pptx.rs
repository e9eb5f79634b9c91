//! The parts of a minimal PPTX (OOXML) package, written by hand: the theme, the slide
//! master and layout, the slides, and the package plumbing (content types, relationships,
//! the presentation part).
//!
//! Colours are written as literal RGB. A theme colour with a transform and a rotation angle
//! are resolved by the caller, which hands each shape over with plain values.

use crate::color::{Color, Rgba};
use crate::font::ScriptFonts;
use crate::font::ScriptFontsView;
use crate::theme::FontSchemeView;
use crate::geom::RectEmu;
use crate::paint::Fill;
use crate::presentation::{listing, spec_master_of, Presentation, Selector};
use crate::shape::Geometry;
use crate::text::{HAlign, TextBody, TextBodyView};
use crate::theme::{default_colors_spec, spec_sans_family, Platform, Theme, ThemeView};
use crate::world::{Entity, World};
use crate::xmltext::{
    decimal, escape_xml, escaped, hex_rgb, hex_rgb_text, push_decimal, push_signed,
    signed_decimal,
};
use vstd::prelude::*;

verus! {

/// The XML declaration every part starts with.
pub const XML_DECL: &'static str = "<?xml version=\"1.0\" encoding=\"UTF-8\" standalone=\"yes\"?>";

pub const THEME_HEAD: &'static str = "<?xml version=\"1.0\" encoding=\"UTF-8\" standalone=\"yes\"?><a:theme xmlns:a=\"http://schemas.openxmlformats.org/drawingml/2006/main\" name=\"HayateTheme\"><a:themeElements><a:clrScheme name=\"HayateColors\">";

pub const FONTS_HEAD: &'static str = "</a:clrScheme><a:fontScheme name=\"HayateFonts\"><a:majorFont>";

pub const MAJOR_TO_MINOR: &'static str = "</a:majorFont><a:minorFont>";

pub const THEME_TAIL: &'static str = "</a:minorFont></a:fontScheme><a:fmtScheme name=\"HayateFmt\"><a:fillStyleLst><a:solidFill><a:schemeClr val=\"phClr\"/></a:solidFill><a:solidFill><a:schemeClr val=\"phClr\"/></a:solidFill><a:solidFill><a:schemeClr val=\"phClr\"/></a:solidFill></a:fillStyleLst><a:lnStyleLst><a:ln w=\"6350\"><a:solidFill><a:schemeClr val=\"phClr\"/></a:solidFill></a:ln><a:ln w=\"12700\"><a:solidFill><a:schemeClr val=\"phClr\"/></a:solidFill></a:ln><a:ln w=\"19050\"><a:solidFill><a:schemeClr val=\"phClr\"/></a:solidFill></a:ln></a:lnStyleLst><a:effectStyleLst><a:effectStyle><a:effectLst/></a:effectStyle><a:effectStyle><a:effectLst/></a:effectStyle><a:effectStyle><a:effectLst/></a:effectStyle></a:effectStyleLst><a:bgFillStyleLst><a:solidFill><a:schemeClr val=\"phClr\"/></a:solidFill><a:solidFill><a:schemeClr val=\"phClr\"/></a:solidFill><a:solidFill><a:schemeClr val=\"phClr\"/></a:solidFill></a:bgFillStyleLst></a:fmtScheme></a:themeElements></a:theme>";

/// The minimal slide master: a colour map, an empty shape tree and the one layout.
pub const SLIDE_MASTER_XML: &'static str = "<?xml version=\"1.0\" encoding=\"UTF-8\" standalone=\"yes\"?><p:sldMaster xmlns:a=\"http://schemas.openxmlformats.org/drawingml/2006/main\" xmlns:r=\"http://schemas.openxmlformats.org/officeDocument/2006/relationships\" xmlns:p=\"http://schemas.openxmlformats.org/presentationml/2006/main\"><p:cSld><p:spTree><p:nvGrpSpPr><p:cNvPr id=\"1\" name=\"\"/><p:cNvGrpSpPr/><p:nvPr/></p:nvGrpSpPr><p:grpSpPr><a:xfrm><a:off x=\"0\" y=\"0\"/><a:ext cx=\"0\" cy=\"0\"/><a:chOff x=\"0\" y=\"0\"/><a:chExt cx=\"0\" cy=\"0\"/></a:xfrm></p:grpSpPr></p:spTree></p:cSld><p:clrMap bg1=\"lt1\" tx1=\"dk1\" bg2=\"lt2\" tx2=\"dk2\" accent1=\"accent1\" accent2=\"accent2\" accent3=\"accent3\" accent4=\"accent4\" accent5=\"accent5\" accent6=\"accent6\" hlink=\"hlink\" folHlink=\"folHlink\"/><p:sldLayoutIdLst><p:sldLayoutId id=\"2147483649\" r:id=\"rId1\"/></p:sldLayoutIdLst></p:sldMaster>";

/// The minimal blank slide layout referencing the master.
pub const SLIDE_LAYOUT_XML: &'static str = "<?xml version=\"1.0\" encoding=\"UTF-8\" standalone=\"yes\"?><p:sldLayout xmlns:a=\"http://schemas.openxmlformats.org/drawingml/2006/main\" xmlns:r=\"http://schemas.openxmlformats.org/officeDocument/2006/relationships\" xmlns:p=\"http://schemas.openxmlformats.org/presentationml/2006/main\" type=\"blank\" preserve=\"1\"><p:cSld name=\"Blank\"><p:spTree><p:nvGrpSpPr><p:cNvPr id=\"1\" name=\"\"/><p:cNvGrpSpPr/><p:nvPr/></p:nvGrpSpPr><p:grpSpPr><a:xfrm><a:off x=\"0\" y=\"0\"/><a:ext cx=\"0\" cy=\"0\"/><a:chOff x=\"0\" y=\"0\"/><a:chExt cx=\"0\" cy=\"0\"/></a:xfrm></p:grpSpPr></p:spTree></p:cSld><p:clrMapOvr><a:overrideClrMapping/></p:clrMapOvr></p:sldLayout>";

/// Minimal slide master part.
pub fn slide_master_xml() -> (s: String)
    ensures
        s@ == SLIDE_MASTER_XML@,
{
    SLIDE_MASTER_XML.to_owned()
}

/// Minimal blank slide layout part.
pub fn slide_layout_xml() -> (s: String)
    ensures
        s@ == SLIDE_LAYOUT_XML@,
{
    SLIDE_LAYOUT_XML.to_owned()
}

/// `<a:TAG><a:srgbClr val="RRGGBB"/></a:TAG>`.
pub open spec fn color_elem(tag: Seq<char>, c: Rgba) -> Seq<char> {
    "<a:"@ + tag + "><a:srgbClr val=\""@ + hex_rgb_text(c.r, c.g, c.b) + "\"/></a:"@ + tag + ">"@
}

/// The Latin, East Asian and complex-script typefaces of a font scheme entry.
pub open spec fn font_triple(f: ScriptFontsView) -> Seq<char> {
    "<a:latin typeface=\""@ + escaped(f.latin) + "\"/><a:ea typeface=\""@ + escaped(f.ea)
        + "\"/><a:cs typeface=\""@ + escaped(f.cs) + "\"/>"@
}

/// The theme part: the colour scheme and font scheme of `t`, and a minimal format scheme.
pub open spec fn theme_xml_text(t: ThemeView) -> Seq<char> {
    THEME_HEAD@ + color_elem("dk1"@, t.colors.dk1) + color_elem("lt1"@, t.colors.lt1)
        + color_elem("dk2"@, t.colors.dk2) + color_elem("lt2"@, t.colors.lt2) + color_elem(
        "accent1"@,
        t.colors.accent@[0],
    ) + color_elem("accent2"@, t.colors.accent@[1]) + color_elem("accent3"@, t.colors.accent@[2])
        + color_elem("accent4"@, t.colors.accent@[3]) + color_elem(
        "accent5"@,
        t.colors.accent@[4],
    ) + color_elem("accent6"@, t.colors.accent@[5]) + color_elem("hlink"@, t.colors.hlink)
        + color_elem("folHlink"@, t.colors.fol_hlink) + FONTS_HEAD@ + font_triple(t.fonts.major)
        + MAJOR_TO_MINOR@ + font_triple(t.fonts.minor) + THEME_TAIL@
}

fn push_color_elem(out: &mut String, tag: &str, c: Rgba)
    ensures
        final(out)@ == old(out)@ + color_elem(tag@, c),
{
    out.append("<a:");
    out.append(tag);
    out.append("><a:srgbClr val=\"");
    let hex = hex_rgb(c.r, c.g, c.b);
    out.append(hex.as_str());
    out.append("\"/></a:");
    out.append(tag);
    out.append(">");
    assert(out@ =~= old(out)@ + color_elem(tag@, c));
}

fn push_font_triple(out: &mut String, f: &ScriptFonts)
    ensures
        final(out)@ == old(out)@ + font_triple(f@),
{
    out.append("<a:latin typeface=\"");
    let latin = escape_xml(f.latin.as_str());
    out.append(latin.as_str());
    out.append("\"/><a:ea typeface=\"");
    let ea = escape_xml(f.ea.as_str());
    out.append(ea.as_str());
    out.append("\"/><a:cs typeface=\"");
    let cs = escape_xml(f.cs.as_str());
    out.append(cs.as_str());
    out.append("\"/>");
    assert(out@ =~= old(out)@ + font_triple(f@));
}

/// The theme part. The colour scheme is filled from the presentation theme so that theme
/// colour references resolve to sensible values; the shapes themselves carry literal colours.
pub fn theme_xml(theme: &Theme) -> (s: String)
    ensures
        s@ == theme_xml_text(theme@),
{
    let c = &theme.colors;
    let mut s = THEME_HEAD.to_owned();
    push_color_elem(&mut s, "dk1", c.dk1);
    push_color_elem(&mut s, "lt1", c.lt1);
    push_color_elem(&mut s, "dk2", c.dk2);
    push_color_elem(&mut s, "lt2", c.lt2);
    push_color_elem(&mut s, "accent1", c.accent[0]);
    push_color_elem(&mut s, "accent2", c.accent[1]);
    push_color_elem(&mut s, "accent3", c.accent[2]);
    push_color_elem(&mut s, "accent4", c.accent[3]);
    push_color_elem(&mut s, "accent5", c.accent[4]);
    push_color_elem(&mut s, "accent6", c.accent[5]);
    push_color_elem(&mut s, "hlink", c.hlink);
    push_color_elem(&mut s, "folHlink", c.fol_hlink);
    s.append(FONTS_HEAD);
    push_font_triple(&mut s, &theme.fonts.major);
    s.append(MAJOR_TO_MINOR);
    push_font_triple(&mut s, &theme.fonts.minor);
    s.append(THEME_TAIL);
    s
}

// ---------------------------------------------------------------------------------------
// Slides

/// A shape as a slide part shows it, before its colours and rotation are resolved.
pub struct SlideShape {
    pub entity: Entity,
    /// Shape id within the slide (the group itself is 1, shapes count from 2).
    pub id: u32,
    /// The shape's name, or `Shape <id>` when it has none.
    pub name: String,
    pub frame: RectEmu,
    /// Rotation in degrees as the bit pattern of an `f32`, when set.
    pub rotation: Option<u32>,
    pub geometry: Option<Geometry>,
    /// The colour of a solid fill; other fills are not exported.
    pub fill: Option<Color>,
    pub text: Option<TextBody>,
}

pub struct SlideShapeView {
    pub entity: Entity,
    pub id: u32,
    pub name: Seq<char>,
    pub frame: RectEmu,
    pub rotation: Option<u32>,
    pub geometry: Option<Geometry>,
    pub fill: Option<Color>,
    pub text: Option<TextBodyView>,
}

impl View for SlideShape {
    type V = SlideShapeView;

    open spec fn view(&self) -> SlideShapeView {
        SlideShapeView {
            entity: self.entity,
            id: self.id,
            name: self.name@,
            frame: self.frame,
            rotation: self.rotation,
            geometry: self.geometry,
            fill: self.fill,
            text: match self.text {
                Some(t) => Some(t@),
                None => None,
            },
        }
    }
}

/// A shape is exported when it has a frame and is a vector shape or a text box.
pub open spec fn exported(w: &World, e: u64) -> bool {
    &&& w.frames@.contains_key(e)
    &&& (w.texts@.contains_key(e) || w.geometries@.contains_key(e))
}

/// How entity `e` of `w` is shown as the shape with id `id`.
pub open spec fn shape_view(w: &World, e: Entity, id: nat) -> SlideShapeView {
    SlideShapeView {
        entity: e,
        id: id as u32,
        name: if w.names@.contains_key(e.0) {
            w.names@[e.0]@
        } else {
            "Shape "@ + decimal(id)
        },
        frame: w.frames@[e.0],
        rotation: if w.rotations@.contains_key(e.0) {
            Some(w.rotations@[e.0])
        } else {
            None
        },
        geometry: if w.geometries@.contains_key(e.0) {
            Some(w.geometries@[e.0])
        } else {
            None
        },
        fill: if w.fills@.contains_key(e.0) {
            match w.fills@[e.0] {
                Fill::Solid(c) => Some(c),
                _ => None,
            }
        } else {
            None
        },
        text: if w.texts@.contains_key(e.0) {
            Some(w.texts@[e.0]@)
        } else {
            None
        },
    }
}

/// The shapes exported from the first `n` of `kids`, numbered from 2 in order.
pub open spec fn exported_upto(w: &World, kids: Seq<Entity>, n: int) -> Seq<SlideShapeView>
    decreases n,
{
    if n <= 0 {
        Seq::empty()
    } else {
        let prev = exported_upto(w, kids, n - 1);
        if exported(w, kids[n - 1].0) {
            prev.push(shape_view(w, kids[n - 1], prev.len() + 2))
        } else {
            prev
        }
    }
}

proof fn lemma_exported_upto_len(w: &World, kids: Seq<Entity>, n: int)
    requires
        0 <= n,
    ensures
        exported_upto(w, kids, n).len() <= n,
    decreases n,
{
    if n > 0 {
        lemma_exported_upto_len(w, kids, n - 1);
    }
}

/// The shapes of `slide` that a slide part shows: its children in order, keeping those that
/// have a frame and are a vector shape or a text box, numbered from 2.
pub fn slide_shapes(pres: &Presentation, slide: Entity) -> (r: Vec<SlideShape>)
    requires
        listing(&pres.world, Selector::ChildOf(slide)).len() + 2 <= u32::MAX,
    ensures
        r@.map_values(|s: SlideShape| s@) == exported_upto(
            &pres.world,
            listing(&pres.world, Selector::ChildOf(slide)),
            listing(&pres.world, Selector::ChildOf(slide)).len() as int,
        ),
{
    let kids = pres.children(slide);
    let ghost w = &pres.world;
    let mut out: Vec<SlideShape> = Vec::new();
    let mut id: u32 = 2;
    let mut i: usize = 0;
    while i < kids.len()
        invariant
            kids@ == listing(&pres.world, Selector::ChildOf(slide)),
            kids@.len() + 2 <= u32::MAX,
            i <= kids.len(),
            out@.map_values(|s: SlideShape| s@) == exported_upto(&pres.world, kids@, i as int),
            id == out@.len() + 2,
            out@.len() <= i,
        decreases kids.len() - i,
    {
        let c = kids[i];
        proof {
            lemma_exported_upto_len(&pres.world, kids@, i as int);
        }
        let frame = pres.world.frames.get(&c.0);
        let has_text = pres.world.texts.contains_key(&c.0);
        let has_geom = pres.world.geometries.contains_key(&c.0);
        match frame {
            Some(f) => {
                if has_text || has_geom {
                    let name = match pres.world.names.get(&c.0) {
                        Some(n) => n.clone(),
                        None => {
                            let mut n = "Shape ".to_owned();
                            push_decimal(&mut n, id as u64);
                            n
                        },
                    };
                    let rotation = match pres.world.rotations.get(&c.0) {
                        Some(r) => Some(*r),
                        None => None,
                    };
                    let geometry = match pres.world.geometries.get(&c.0) {
                        Some(g) => Some(*g),
                        None => None,
                    };
                    let fill = match pres.world.fills.get(&c.0) {
                        Some(Fill::Solid(col)) => Some(*col),
                        _ => None,
                    };
                    let text = match pres.world.texts.get(&c.0) {
                        Some(t) => Some(t.duplicate()),
                        None => None,
                    };
                    let shape = SlideShape {
                        entity: c,
                        id,
                        name,
                        frame: *f,
                        rotation,
                        geometry,
                        fill,
                        text,
                    };
                    proof {
                        assert(shape@ == shape_view(&pres.world, c, (out@.len() + 2) as nat));
                    }
                    out.push(shape);
                    id = id + 1;
                    proof {
                        assert(out@.map_values(|s: SlideShape| s@) =~= exported_upto(
                            &pres.world,
                            kids@,
                            i + 1,
                        ));
                    }
                } else {
                    assert(exported_upto(&pres.world, kids@, i + 1) == exported_upto(
                        &pres.world,
                        kids@,
                        i as int,
                    ));
                }
            },
            None => {
                assert(exported_upto(&pres.world, kids@, i + 1) == exported_upto(
                    &pres.world,
                    kids@,
                    i as int,
                ));
            },
        }
        i = i + 1;
    }
    out
}

// ---------------------------------------------------------------------------------------
// Slide parts from resolved shapes

/// A text run with its colour resolved.
pub struct RunXml {
    pub text: String,
    /// Font size in EMU.
    pub size: i64,
    pub bold: bool,
    pub italic: bool,
    pub underline: bool,
    pub color: Rgba,
}

/// A paragraph with its runs' colours resolved.
pub struct ParaXml {
    pub align: HAlign,
    pub runs: Vec<RunXml>,
}

/// A shape with its colours resolved and its rotation converted to OOXML units.
pub struct ShapeXml {
    pub id: u32,
    pub name: String,
    pub frame: RectEmu,
    /// Rotation in 60000ths of a degree, normalized into `[0, 360)` degrees; `None` when the
    /// shape is not rotated.
    pub rotation: Option<i64>,
    pub geometry: Option<Geometry>,
    pub fill: Option<Rgba>,
    pub text: Option<Vec<ParaXml>>,
}

pub struct RunXmlView {
    pub text: Seq<char>,
    pub size: i64,
    pub bold: bool,
    pub italic: bool,
    pub underline: bool,
    pub color: Rgba,
}

pub struct ParaXmlView {
    pub align: HAlign,
    pub runs: Seq<RunXmlView>,
}

pub struct ShapeXmlView {
    pub id: u32,
    pub name: Seq<char>,
    pub frame: RectEmu,
    pub rotation: Option<i64>,
    pub geometry: Option<Geometry>,
    pub fill: Option<Rgba>,
    pub text: Option<Seq<ParaXmlView>>,
}

impl View for RunXml {
    type V = RunXmlView;

    open spec fn view(&self) -> RunXmlView {
        RunXmlView {
            text: self.text@,
            size: self.size,
            bold: self.bold,
            italic: self.italic,
            underline: self.underline,
            color: self.color,
        }
    }
}

impl View for ParaXml {
    type V = ParaXmlView;

    open spec fn view(&self) -> ParaXmlView {
        ParaXmlView { align: self.align, runs: self.runs@.map_values(|r: RunXml| r@) }
    }
}

impl View for ShapeXml {
    type V = ShapeXmlView;

    open spec fn view(&self) -> ShapeXmlView {
        ShapeXmlView {
            id: self.id,
            name: self.name@,
            frame: self.frame,
            rotation: self.rotation,
            geometry: self.geometry,
            fill: self.fill,
            text: match self.text {
                Some(ps) => Some(ps@.map_values(|p: ParaXml| p@)),
                None => None,
            },
        }
    }
}

/// Rust's integer division, which rounds toward zero.
pub open spec fn div_toward_zero(a: int, b: int) -> int {
    if a >= 0 {
        a / b
    } else {
        -((-a) / b)
    }
}

/// A font size in EMU as OOXML hundredths of a point, at least one point.
pub open spec fn hundredth_pt(size_emu: int) -> int {
    let h = div_toward_zero(size_emu * 100, 12_700);
    if h < 100 {
        100
    } else {
        h
    }
}

/// The size multiplied by a hundred fits in an `i64`.
pub open spec fn size_in_range(size_emu: i64) -> bool {
    i64::MIN <= size_emu * 100 <= i64::MAX
}

/// EMU font size to OOXML hundredths of a point (the `sz` attribute), at least one point.
pub fn emu_to_hundredth_pt(size_emu: i64) -> (h: i64)
    requires
        size_in_range(size_emu),
    ensures
        h == hundredth_pt(size_emu as int),
{
    let x = size_emu * 100;
    let h = if x >= 0 {
        x / 12_700
    } else {
        assert(x != i64::MIN);
        -((-x) / 12_700)
    };
    if h < 100 {
        100
    } else {
        h
    }
}

/// `<a:solidFill>` with a literal colour.
pub open spec fn solid_fill_text(c: Rgba) -> Seq<char> {
    "<a:solidFill><a:srgbClr val=\""@ + hex_rgb_text(c.r, c.g, c.b) + "\"/></a:solidFill>"@
}

/// `<a:xfrm>` with offset, extent (negative sizes written as 0) and an optional rotation.
pub open spec fn xfrm_text(frame: RectEmu, rotation: Option<i64>) -> Seq<char> {
    "<a:xfrm"@ + match rotation {
        Some(u) => " rot=\""@ + signed_decimal(u as int) + "\""@,
        None => Seq::<char>::empty(),
    } + "><a:off x=\""@ + signed_decimal(frame.origin.x as int) + "\" y=\""@ + signed_decimal(
        frame.origin.y as int,
    ) + "\"/><a:ext cx=\""@ + signed_decimal(
        if frame.size.w < 0 {
            0
        } else {
            frame.size.w as int
        },
    ) + "\" cy=\""@ + signed_decimal(
        if frame.size.h < 0 {
            0
        } else {
            frame.size.h as int
        },
    ) + "\"/></a:xfrm>"@
}

/// The OOXML preset name of a geometry; a text box without geometry is a `rect`.
pub open spec fn preset_name(g: Option<Geometry>) -> Seq<char> {
    match g {
        Some(Geometry::Rect) => "rect"@,
        Some(Geometry::RoundRect { .. }) => "roundRect"@,
        Some(Geometry::Ellipse) => "ellipse"@,
        Some(Geometry::Line { .. }) => "line"@,
        None => "rect"@,
    }
}

/// The `algn` value of a paragraph alignment.
pub open spec fn align_code(a: HAlign) -> Seq<char> {
    match a {
        HAlign::Left => "l"@,
        HAlign::Center => "ctr"@,
        HAlign::Right => "r"@,
        HAlign::Justify => "just"@,
    }
}

/// One `<a:r>`: size, bold, italic, underline and colour, then the escaped text.
pub open spec fn run_text(r: RunXmlView) -> Seq<char> {
    "<a:r><a:rPr lang=\"en-US\" sz=\""@ + signed_decimal(hundredth_pt(r.size as int)) + "\""@ + (
    if r.bold {
        " b=\"1\""@
    } else {
        Seq::<char>::empty()
    }) + (if r.italic {
        " i=\"1\""@
    } else {
        Seq::<char>::empty()
    }) + (if r.underline {
        " u=\"sng\""@
    } else {
        Seq::<char>::empty()
    }) + ">"@ + solid_fill_text(r.color) + "</a:rPr><a:t>"@ + escaped(r.text) + "</a:t></a:r>"@
}

pub open spec fn runs_text(rs: Seq<RunXmlView>) -> Seq<char>
    decreases rs.len(),
{
    if rs.len() == 0 {
        Seq::empty()
    } else {
        runs_text(rs.drop_last()) + run_text(rs.last())
    }
}

/// One `<a:p>`: its alignment, then its runs.
pub open spec fn para_text(p: ParaXmlView) -> Seq<char> {
    "<a:p><a:pPr algn=\""@ + align_code(p.align) + "\"/>"@ + runs_text(p.runs) + "</a:p>"@
}

pub open spec fn paras_text(ps: Seq<ParaXmlView>) -> Seq<char>
    decreases ps.len(),
{
    if ps.len() == 0 {
        Seq::empty()
    } else {
        paras_text(ps.drop_last()) + para_text(ps.last())
    }
}

pub const TXBODY_HEAD: &'static str = "<p:txBody><a:bodyPr wrap=\"square\" rtlCol=\"0\"><a:normAutofit/></a:bodyPr><a:lstStyle/>";

/// The `<p:txBody>` of a text box; an empty body still holds one empty paragraph.
pub open spec fn txbody_text(ps: Seq<ParaXmlView>) -> Seq<char> {
    TXBODY_HEAD@ + (if ps.len() == 0 {
        "<a:p/>"@
    } else {
        Seq::<char>::empty()
    }) + paras_text(ps) + "</p:txBody>"@
}

pub const EMPTY_TXBODY: &'static str = "<p:txBody><a:bodyPr/><a:lstStyle/><a:p/></p:txBody>";

/// The fill of a shape: its solid colour; a vector shape without one is left unfilled.
pub open spec fn fill_text(s: ShapeXmlView) -> Seq<char> {
    match s.fill {
        Some(c) => solid_fill_text(c),
        None => if s.text is None {
            "<a:noFill/>"@
        } else {
            Seq::<char>::empty()
        },
    }
}

/// The non-visual properties of a shape: its id, escaped name and whether it is a text box.
pub open spec fn nv_text(s: ShapeXmlView) -> Seq<char> {
    "<p:nvSpPr><p:cNvPr id=\""@ + decimal(s.id as nat) + "\" name=\""@ + escaped(s.name) + "\"/>"@ + (
    if s.text is Some {
        "<p:cNvSpPr txBox=\"1\"/>"@
    } else {
        "<p:cNvSpPr/>"@
    }) + "<p:nvPr/></p:nvSpPr>"@
}

/// The corner `adj` guide value that stands for `radius` on `frame`: the radius in
/// hundred-thousandths of the shorter side (a negative size counts as zero), rounded to
/// nearest and taken in `0..=50000`; zero for a radius of zero or less or a flat frame.
pub open spec fn adj_of_radius(radius: i64, frame: RectEmu) -> int {
    let w: int = if frame.size.w < 0 {
        0
    } else {
        frame.size.w as int
    };
    let h: int = if frame.size.h < 0 {
        0
    } else {
        frame.size.h as int
    };
    let ss = if w < h {
        w
    } else {
        h
    };
    if radius <= 0 || ss <= 0 {
        0
    } else {
        let q = (radius * 100000 + ss / 2) / ss;
        if q > 50000 {
            50000
        } else {
            q
        }
    }
}

/// The guide list of a preset: a rounded rectangle carries its corner radius as the `adj`
/// guide; other presets carry none.
pub open spec fn guides_text(g: Option<Geometry>, frame: RectEmu) -> Seq<char> {
    match g {
        Some(Geometry::RoundRect { radius }) => "<a:avLst><a:gd name=\"adj\" fmla=\"val "@ + decimal(
            adj_of_radius(radius, frame) as nat,
        ) + "\"/></a:avLst>"@,
        _ => "<a:avLst/>"@,
    }
}

/// The visual properties of a shape: placement, preset geometry and fill.
pub open spec fn props_text(s: ShapeXmlView) -> Seq<char> {
    "<p:spPr>"@ + xfrm_text(s.frame, s.rotation) + "<a:prstGeom prst=\""@ + preset_name(s.geometry)
        + "\">"@ + guides_text(s.geometry, s.frame) + "</a:prstGeom>"@ + fill_text(s) + "</p:spPr>"@
}

/// The `adj` guide value of a corner radius on a frame.
fn adj_value(radius: i64, frame: RectEmu) -> (a: u64)
    ensures
        a as int == adj_of_radius(radius, frame),
{
    let w: i128 = if frame.size.w < 0 {
        0
    } else {
        frame.size.w as i128
    };
    let h: i128 = if frame.size.h < 0 {
        0
    } else {
        frame.size.h as i128
    };
    let ss = if w < h {
        w
    } else {
        h
    };
    if radius <= 0 || ss <= 0 {
        return 0;
    }
    let num: i128 = radius as i128 * 100000 + ss / 2;
    let q = num / ss;
    assert(q >= 0) by (nonlinear_arith)
        requires
            num >= 0,
            ss > 0,
            q == num / ss,
    ;
    if q > 50000 {
        50000
    } else {
        q as u64
    }
}

/// The text body of a shape; a shape without text still carries an empty one.
pub open spec fn body_text(s: ShapeXmlView) -> Seq<char> {
    match s.text {
        Some(ps) => txbody_text(ps),
        None => EMPTY_TXBODY@,
    }
}

/// One `<p:sp>`.
pub open spec fn sp_text(s: ShapeXmlView) -> Seq<char> {
    "<p:sp>"@ + nv_text(s) + props_text(s) + body_text(s) + "</p:sp>"@
}

pub open spec fn shapes_text(ss: Seq<ShapeXmlView>) -> Seq<char>
    decreases ss.len(),
{
    if ss.len() == 0 {
        Seq::empty()
    } else {
        shapes_text(ss.drop_last()) + sp_text(ss.last())
    }
}

pub const SLIDE_HEAD: &'static str = "<?xml version=\"1.0\" encoding=\"UTF-8\" standalone=\"yes\"?><p:sld xmlns:a=\"http://schemas.openxmlformats.org/drawingml/2006/main\" xmlns:r=\"http://schemas.openxmlformats.org/officeDocument/2006/relationships\" xmlns:p=\"http://schemas.openxmlformats.org/presentationml/2006/main\"><p:cSld><p:spTree><p:nvGrpSpPr><p:cNvPr id=\"1\" name=\"\"/><p:cNvGrpSpPr/><p:nvPr/></p:nvGrpSpPr><p:grpSpPr><a:xfrm><a:off x=\"0\" y=\"0\"/><a:ext cx=\"0\" cy=\"0\"/><a:chOff x=\"0\" y=\"0\"/><a:chExt cx=\"0\" cy=\"0\"/></a:xfrm></p:grpSpPr>";

pub const SLIDE_TAIL: &'static str = "</p:spTree></p:cSld><p:clrMapOvr><a:overrideClrMapping/></p:clrMapOvr></p:sld>";

/// A slide part: the group header, one `<p:sp>` per shape, and the colour-map override.
pub open spec fn slide_text(ss: Seq<ShapeXmlView>) -> Seq<char> {
    SLIDE_HEAD@ + shapes_text(ss) + SLIDE_TAIL@
}

/// Every run size of the shapes converts without overflow.
pub open spec fn run_sizes_in_range(ss: Seq<ShapeXmlView>) -> bool {
    forall|i: int, j: int, k: int|
        0 <= i < ss.len() && ss[i].text is Some && 0 <= j < ss[i].text.unwrap().len() && 0 <= k
            < ss[i].text.unwrap()[j].runs.len() ==> size_in_range(
            #[trigger] ss[i].text.unwrap()[j].runs[k].size,
        )
}

fn push_solid_fill(out: &mut String, c: Rgba)
    ensures
        final(out)@ == old(out)@ + solid_fill_text(c),
{
    out.append("<a:solidFill><a:srgbClr val=\"");
    let hex = hex_rgb(c.r, c.g, c.b);
    out.append(hex.as_str());
    out.append("\"/></a:solidFill>");
    assert(out@ =~= old(out)@ + solid_fill_text(c));
}

/// `<a:xfrm>` with offset, extent and optional rotation.
pub fn xfrm_xml(frame: RectEmu, rotation: Option<i64>) -> (s: String)
    ensures
        s@ == xfrm_text(frame, rotation),
{
    let mut s = "<a:xfrm".to_owned();
    match rotation {
        Some(u) => {
            s.append(" rot=\"");
            push_signed(&mut s, u);
            s.append("\"");
        },
        None => {},
    }
    s.append("><a:off x=\"");
    push_signed(&mut s, frame.origin.x);
    s.append("\" y=\"");
    push_signed(&mut s, frame.origin.y);
    s.append("\"/><a:ext cx=\"");
    push_signed(
        &mut s,
        if frame.size.w < 0 {
            0
        } else {
            frame.size.w
        },
    );
    s.append("\" cy=\"");
    push_signed(
        &mut s,
        if frame.size.h < 0 {
            0
        } else {
            frame.size.h
        },
    );
    s.append("\"/></a:xfrm>");
    assert(s@ =~= xfrm_text(frame, rotation));
    s
}

#[verifier::rlimit(100)]
#[verifier::spinoff_prover]
fn push_run(out: &mut String, r: &RunXml)
    requires
        size_in_range(r.size),
    ensures
        final(out)@ == old(out)@ + run_text(r@),
{
    out.append("<a:r><a:rPr lang=\"en-US\" sz=\"");
    push_signed(out, emu_to_hundredth_pt(r.size));
    out.append("\"");
    if r.bold {
        out.append(" b=\"1\"");
    }
    if r.italic {
        out.append(" i=\"1\"");
    }
    if r.underline {
        out.append(" u=\"sng\"");
    }
    out.append(">");
    push_solid_fill(out, r.color);
    out.append("</a:rPr><a:t>");
    let t = escape_xml(r.text.as_str());
    out.append(t.as_str());
    out.append("</a:t></a:r>");
    assert(out@ =~= old(out)@ + run_text(r@));
}

fn push_para(out: &mut String, p: &ParaXml)
    requires
        forall|k: int| 0 <= k < p.runs@.len() ==> size_in_range(#[trigger] p.runs@[k].size),
    ensures
        final(out)@ == old(out)@ + para_text(p@),
{
    out.append("<a:p><a:pPr algn=\"");
    match p.align {
        HAlign::Left => out.append("l"),
        HAlign::Center => out.append("ctr"),
        HAlign::Right => out.append("r"),
        HAlign::Justify => out.append("just"),
    }
    out.append("\"/>");
    let ghost start = out@;
    let ghost rs = p@.runs;
    let mut k: usize = 0;
    while k < p.runs.len()
        invariant
            k <= p.runs@.len(),
            rs == p.runs@.map_values(|r: RunXml| r@),
            forall|k2: int| 0 <= k2 < p.runs@.len() ==> size_in_range(#[trigger] p.runs@[k2].size),
            out@ == start + runs_text(rs.take(k as int)),
        decreases p.runs@.len() - k,
    {
        push_run(out, &p.runs[k]);
        proof {
            assert(rs.take(k + 1).drop_last() =~= rs.take(k as int));
            assert(out@ =~= start + runs_text(rs.take(k + 1)));
        }
        k = k + 1;
    }
    assert(rs.take(p.runs@.len() as int) =~= rs);
    out.append("</a:p>");
    assert(out@ =~= old(out)@ + para_text(p@));
}

/// The `<p:txBody>` of a text box.
pub fn txbody_xml(paras: &Vec<ParaXml>) -> (s: String)
    requires
        forall|j: int, k: int|
            0 <= j < paras@.len() && 0 <= k < paras@[j].runs@.len() ==> size_in_range(
                #[trigger] paras@[j].runs@[k].size,
            ),
    ensures
        s@ == txbody_text(paras@.map_values(|p: ParaXml| p@)),
{
    let ghost ps = paras@.map_values(|p: ParaXml| p@);
    let mut s = TXBODY_HEAD.to_owned();
    if paras.len() == 0 {
        s.append("<a:p/>");
    }
    let ghost start = s@;
    let mut j: usize = 0;
    while j < paras.len()
        invariant
            j <= paras@.len(),
            ps == paras@.map_values(|p: ParaXml| p@),
            forall|j2: int, k: int|
                0 <= j2 < paras@.len() && 0 <= k < paras@[j2].runs@.len() ==> size_in_range(
                    #[trigger] paras@[j2].runs@[k].size,
                ),
            s@ == start + paras_text(ps.take(j as int)),
        decreases paras@.len() - j,
    {
        proof {
            assert forall|k: int| 0 <= k < paras@[j as int].runs@.len() implies size_in_range(
                #[trigger] paras@[j as int].runs@[k].size,
            ) by {}
        }
        push_para(&mut s, &paras[j]);
        proof {
            assert(ps.take(j + 1).drop_last() =~= ps.take(j as int));
            assert(s@ =~= start + paras_text(ps.take(j + 1)));
        }
        j = j + 1;
    }
    assert(ps.take(paras@.len() as int) =~= ps);
    s.append("</p:txBody>");
    assert(s@ =~= txbody_text(ps));
    s
}

fn push_nv(out: &mut String, sh: &ShapeXml)
    ensures
        final(out)@ == old(out)@ + nv_text(sh@),
{
    out.append("<p:nvSpPr><p:cNvPr id=\"");
    push_decimal(out, sh.id as u64);
    out.append("\" name=\"");
    let name = escape_xml(sh.name.as_str());
    out.append(name.as_str());
    out.append("\"/>");
    match &sh.text {
        Some(_) => out.append("<p:cNvSpPr txBox=\"1\"/>"),
        None => out.append("<p:cNvSpPr/>"),
    }
    out.append("<p:nvPr/></p:nvSpPr>");
    assert(out@ =~= old(out)@ + nv_text(sh@));
}

fn push_props(out: &mut String, sh: &ShapeXml)
    ensures
        final(out)@ == old(out)@ + props_text(sh@),
{
    out.append("<p:spPr>");
    let x = xfrm_xml(sh.frame, sh.rotation);
    out.append(x.as_str());
    out.append("<a:prstGeom prst=\"");
    match sh.geometry {
        Some(Geometry::Rect) => out.append("rect"),
        Some(Geometry::RoundRect { .. }) => out.append("roundRect"),
        Some(Geometry::Ellipse) => out.append("ellipse"),
        Some(Geometry::Line { .. }) => out.append("line"),
        None => out.append("rect"),
    }
    out.append("\">");
    match sh.geometry {
        Some(Geometry::RoundRect { radius }) => {
            out.append("<a:avLst><a:gd name=\"adj\" fmla=\"val ");
            push_decimal(out, adj_value(radius, sh.frame));
            out.append("\"/></a:avLst>");
        },
        _ => out.append("<a:avLst/>"),
    }
    out.append("</a:prstGeom>");
    let ghost before_fill = out@;
    match sh.fill {
        Some(c) => push_solid_fill(out, c),
        None => {
            if sh.text.is_none() {
                out.append("<a:noFill/>");
            }
        },
    }
    assert(out@ =~= before_fill + fill_text(sh@));
    out.append("</p:spPr>");
    assert(out@ =~= old(out)@ + props_text(sh@));
}

fn push_sp(out: &mut String, sh: &ShapeXml)
    requires
        sh.text matches Some(ps) ==> forall|j: int, k: int|
            0 <= j < ps@.len() && 0 <= k < ps@[j].runs@.len() ==> size_in_range(
                #[trigger] ps@[j].runs@[k].size,
            ),
    ensures
        final(out)@ == old(out)@ + sp_text(sh@),
{
    out.append("<p:sp>");
    push_nv(out, sh);
    push_props(out, sh);
    let ghost before_body = out@;
    match &sh.text {
        Some(ps) => {
            let body = txbody_xml(ps);
            out.append(body.as_str());
        },
        None => out.append(EMPTY_TXBODY),
    }
    assert(out@ == before_body + body_text(sh@));
    out.append("</p:sp>");
    assert(out@ =~= old(out)@ + sp_text(sh@));
}

/// A slide part (`ppt/slides/slideN.xml`) holding `shapes` in order.
pub fn slide_xml(shapes: &Vec<ShapeXml>) -> (s: String)
    requires
        run_sizes_in_range(shapes@.map_values(|sh: ShapeXml| sh@)),
    ensures
        s@ == slide_text(shapes@.map_values(|sh: ShapeXml| sh@)),
{
    let ghost ss = shapes@.map_values(|sh: ShapeXml| sh@);
    let mut s = SLIDE_HEAD.to_owned();
    let ghost start = s@;
    let mut i: usize = 0;
    while i < shapes.len()
        invariant
            i <= shapes@.len(),
            ss == shapes@.map_values(|sh: ShapeXml| sh@),
            run_sizes_in_range(ss),
            s@ == start + shapes_text(ss.take(i as int)),
        decreases shapes@.len() - i,
    {
        proof {
            let sh = shapes@[i as int];
            if sh.text is Some {
                let ps = sh.text.unwrap();
                assert forall|j: int, k: int|
                    0 <= j < ps@.len() && 0 <= k < ps@[j].runs@.len() implies size_in_range(
                        #[trigger] ps@[j].runs@[k].size,
                    ) by {
                    assert(ss[i as int].text.unwrap()[j].runs[k].size == ps@[j].runs@[k].size);
                }
            }
        }
        push_sp(&mut s, &shapes[i]);
        proof {
            assert(ss.take(i + 1).drop_last() =~= ss.take(i as int));
            assert(s@ =~= start + shapes_text(ss.take(i + 1)));
        }
        i = i + 1;
    }
    assert(ss.take(shapes@.len() as int) =~= ss);
    s.append(SLIDE_TAIL);
    s
}

// ---------------------------------------------------------------------------------------
// The package

pub const CONTENT_TYPES_HEAD: &'static str = "<?xml version=\"1.0\" encoding=\"UTF-8\" standalone=\"yes\"?><Types xmlns=\"http://schemas.openxmlformats.org/package/2006/content-types\"><Default Extension=\"rels\" ContentType=\"application/vnd.openxmlformats-package.relationships+xml\"/><Default Extension=\"xml\" ContentType=\"application/xml\"/><Override PartName=\"/ppt/presentation.xml\" ContentType=\"application/vnd.openxmlformats-officedocument.presentationml.presentation.main+xml\"/><Override PartName=\"/ppt/slideMasters/slideMaster1.xml\" ContentType=\"application/vnd.openxmlformats-officedocument.presentationml.slideMaster+xml\"/><Override PartName=\"/ppt/slideLayouts/slideLayout1.xml\" ContentType=\"application/vnd.openxmlformats-officedocument.presentationml.slideLayout+xml\"/><Override PartName=\"/ppt/theme/theme1.xml\" ContentType=\"application/vnd.openxmlformats-officedocument.theme+xml\"/>";

pub const ROOT_RELS: &'static str = "<?xml version=\"1.0\" encoding=\"UTF-8\" standalone=\"yes\"?><Relationships xmlns=\"http://schemas.openxmlformats.org/package/2006/relationships\"><Relationship Id=\"rId1\" Type=\"http://schemas.openxmlformats.org/officeDocument/2006/relationships/officeDocument\" Target=\"ppt/presentation.xml\"/></Relationships>";

pub const PRESENTATION_HEAD: &'static str = "<?xml version=\"1.0\" encoding=\"UTF-8\" standalone=\"yes\"?><p:presentation xmlns:a=\"http://schemas.openxmlformats.org/drawingml/2006/main\" xmlns:r=\"http://schemas.openxmlformats.org/officeDocument/2006/relationships\" xmlns:p=\"http://schemas.openxmlformats.org/presentationml/2006/main\"><p:sldMasterIdLst><p:sldMasterId id=\"2147483648\" r:id=\"rId1\"/></p:sldMasterIdLst><p:sldIdLst>";

pub const PRESENTATION_RELS_HEAD: &'static str = "<?xml version=\"1.0\" encoding=\"UTF-8\" standalone=\"yes\"?><Relationships xmlns=\"http://schemas.openxmlformats.org/package/2006/relationships\"><Relationship Id=\"rId1\" Type=\"http://schemas.openxmlformats.org/officeDocument/2006/relationships/slideMaster\" Target=\"slideMasters/slideMaster1.xml\"/>";

pub const MASTER_RELS: &'static str = "<?xml version=\"1.0\" encoding=\"UTF-8\" standalone=\"yes\"?><Relationships xmlns=\"http://schemas.openxmlformats.org/package/2006/relationships\"><Relationship Id=\"rId1\" Type=\"http://schemas.openxmlformats.org/officeDocument/2006/relationships/slideLayout\" Target=\"../slideLayouts/slideLayout1.xml\"/><Relationship Id=\"rId2\" Type=\"http://schemas.openxmlformats.org/officeDocument/2006/relationships/theme\" Target=\"../theme/theme1.xml\"/></Relationships>";

pub const LAYOUT_RELS: &'static str = "<?xml version=\"1.0\" encoding=\"UTF-8\" standalone=\"yes\"?><Relationships xmlns=\"http://schemas.openxmlformats.org/package/2006/relationships\"><Relationship Id=\"rId1\" Type=\"http://schemas.openxmlformats.org/officeDocument/2006/relationships/slideMaster\" Target=\"../slideMasters/slideMaster1.xml\"/></Relationships>";

pub const SLIDE_RELS: &'static str = "<?xml version=\"1.0\" encoding=\"UTF-8\" standalone=\"yes\"?><Relationships xmlns=\"http://schemas.openxmlformats.org/package/2006/relationships\"><Relationship Id=\"rId1\" Type=\"http://schemas.openxmlformats.org/officeDocument/2006/relationships/slideLayout\" Target=\"../slideLayouts/slideLayout1.xml\"/></Relationships>";

/// The content-type override of slide part `k` (counting from 1).
pub open spec fn slide_override(k: nat) -> Seq<char> {
    "<Override PartName=\"/ppt/slides/slide"@ + decimal(k)
        + ".xml\" ContentType=\"application/vnd.openxmlformats-officedocument.presentationml.slide+xml\"/>"@
}

pub open spec fn slide_overrides(n: nat) -> Seq<char>
    decreases n,
{
    if n == 0 {
        Seq::empty()
    } else {
        slide_overrides((n - 1) as nat) + slide_override(n)
    }
}

/// `[Content_Types].xml` for a package with `n` slides.
pub open spec fn content_types_text(n: nat) -> Seq<char> {
    CONTENT_TYPES_HEAD@ + slide_overrides(n) + "</Types>"@
}

/// The slide id entry of slide index `idx` (counting from 0): id `256 + idx`, relationship
/// `rId(idx + 2)`.
pub open spec fn slide_id_entry(idx: nat) -> Seq<char> {
    "<p:sldId id=\""@ + decimal(256 + idx) + "\" r:id=\"rId"@ + decimal(idx + 2) + "\"/>"@
}

pub open spec fn slide_id_entries(n: nat) -> Seq<char>
    decreases n,
{
    if n == 0 {
        Seq::empty()
    } else {
        slide_id_entries((n - 1) as nat) + slide_id_entry((n - 1) as nat)
    }
}

/// `ppt/presentation.xml`: the master, the slides in order, the slide size and the notes
/// size (the slide size turned sideways).
pub open spec fn presentation_text(w: i64, h: i64, n: nat) -> Seq<char> {
    PRESENTATION_HEAD@ + slide_id_entries(n) + "</p:sldIdLst><p:sldSz cx=\""@ + signed_decimal(
        w as int,
    ) + "\" cy=\""@ + signed_decimal(h as int) + "\"/><p:notesSz cx=\""@ + signed_decimal(h as int)
        + "\" cy=\""@ + signed_decimal(w as int) + "\"/></p:presentation>"@
}

/// The relationship of slide index `idx`: `rId(idx + 2)` to `slides/slide(idx + 1).xml`.
pub open spec fn slide_rel(idx: nat) -> Seq<char> {
    "<Relationship Id=\"rId"@ + decimal(idx + 2)
        + "\" Type=\"http://schemas.openxmlformats.org/officeDocument/2006/relationships/slide\" Target=\"slides/slide"@
        + decimal(idx + 1) + ".xml\"/>"@
}

pub open spec fn slide_rels(n: nat) -> Seq<char>
    decreases n,
{
    if n == 0 {
        Seq::empty()
    } else {
        slide_rels((n - 1) as nat) + slide_rel((n - 1) as nat)
    }
}

/// `ppt/_rels/presentation.xml.rels`: the master, each slide, and the theme last.
pub open spec fn presentation_rels_text(n: nat) -> Seq<char> {
    PRESENTATION_RELS_HEAD@ + slide_rels(n) + "<Relationship Id=\"rId"@ + decimal(n + 2)
        + "\" Type=\"http://schemas.openxmlformats.org/officeDocument/2006/relationships/theme\" Target=\"theme/theme1.xml\"/></Relationships>"@
}

/// The part name of slide `k` (counting from 1) and of its relationships.
pub open spec fn slide_part_name(k: nat) -> Seq<char> {
    "ppt/slides/slide"@ + decimal(k) + ".xml"@
}

pub open spec fn slide_rels_name(k: nat) -> Seq<char> {
    "ppt/slides/_rels/slide"@ + decimal(k) + ".xml.rels"@
}

/// The slide parts: each slide and its relationships, in slide order.
pub open spec fn slide_parts(xs: Seq<Seq<char>>) -> Seq<(Seq<char>, Seq<char>)>
    decreases xs.len(),
{
    if xs.len() == 0 {
        Seq::empty()
    } else {
        slide_parts(xs.drop_last()) + seq![
            (slide_part_name(xs.len()), xs.last()),
            (slide_rels_name(xs.len()), SLIDE_RELS@),
        ]
    }
}

/// Every part of the package, in the order they are written: the package plumbing, the
/// master, layout and theme, then each slide.
pub open spec fn package_parts_spec(w: i64, h: i64, theme: ThemeView, xs: Seq<Seq<char>>) -> Seq<
    (Seq<char>, Seq<char>),
> {
    fixed_parts(w, h, theme, xs.len()) + slide_parts(xs)
}

/// The parts before the slides, for a package with `n` slides.
pub open spec fn fixed_parts(w: i64, h: i64, theme: ThemeView, n: nat) -> Seq<(Seq<char>, Seq<char>)> {
    plumbing_spec(w, h, n) + design_spec(theme)
}

/// The content types, the package relationships and the presentation part with its
/// relationships.
#[verifier::opaque]
pub open spec fn plumbing_spec(w: i64, h: i64, n: nat) -> Seq<(Seq<char>, Seq<char>)> {
    seq![
        ("[Content_Types].xml"@, content_types_text(n)),
        ("_rels/.rels"@, ROOT_RELS@),
        ("ppt/presentation.xml"@, presentation_text(w, h, n)),
        ("ppt/_rels/presentation.xml.rels"@, presentation_rels_text(n)),
    ]
}

/// The slide master, the slide layout (each with its relationships) and the theme.
#[verifier::opaque]
pub open spec fn design_spec(theme: ThemeView) -> Seq<(Seq<char>, Seq<char>)> {
    seq![
        ("ppt/slideMasters/slideMaster1.xml"@, SLIDE_MASTER_XML@),
        ("ppt/slideMasters/_rels/slideMaster1.xml.rels"@, MASTER_RELS@),
        ("ppt/slideLayouts/slideLayout1.xml"@, SLIDE_LAYOUT_XML@),
        ("ppt/slideLayouts/_rels/slideLayout1.xml.rels"@, LAYOUT_RELS@),
        ("ppt/theme/theme1.xml"@, theme_xml_text(theme)),
    ]
}

pub open spec fn part_view(p: (String, String)) -> (Seq<char>, Seq<char>) {
    (p.0@, p.1@)
}

pub open spec fn parts_view(ps: Seq<(String, String)>) -> Seq<(Seq<char>, Seq<char>)> {
    ps.map_values(|p: (String, String)| part_view(p))
}

pub open spec fn strings_view(xs: Seq<String>) -> Seq<Seq<char>> {
    xs.map_values(|x: String| x@)
}

fn content_types_xml(n: usize) -> (s: String)
    ensures
        s@ == content_types_text(n as nat),
{
    let mut s = CONTENT_TYPES_HEAD.to_owned();
    let ghost start = s@;
    let mut k: usize = 0;
    while k < n
        invariant
            k <= n,
            s@ == start + slide_overrides(k as nat),
        decreases n - k,
    {
        s.append("<Override PartName=\"/ppt/slides/slide");
        push_decimal(&mut s, (k + 1) as u64);
        s.append(".xml\" ContentType=\"application/vnd.openxmlformats-officedocument.presentationml.slide+xml\"/>");
        k = k + 1;
        assert(s@ =~= start + slide_overrides(k as nat));
    }
    s.append("</Types>");
    s
}

fn presentation_xml(w: i64, h: i64, n: usize) -> (s: String)
    requires
        n + 256 <= u32::MAX,
    ensures
        s@ == presentation_text(w, h, n as nat),
{
    let mut s = PRESENTATION_HEAD.to_owned();
    let ghost start = s@;
    let mut k: usize = 0;
    while k < n
        invariant
            k <= n,
            n + 256 <= u32::MAX,
            s@ == start + slide_id_entries(k as nat),
        decreases n - k,
    {
        s.append("<p:sldId id=\"");
        push_decimal(&mut s, 256 + k as u64);
        s.append("\" r:id=\"rId");
        push_decimal(&mut s, k as u64 + 2);
        s.append("\"/>");
        k = k + 1;
        assert(s@ =~= start + slide_id_entries(k as nat));
    }
    s.append("</p:sldIdLst><p:sldSz cx=\"");
    push_signed(&mut s, w);
    s.append("\" cy=\"");
    push_signed(&mut s, h);
    s.append("\"/><p:notesSz cx=\"");
    push_signed(&mut s, h);
    s.append("\" cy=\"");
    push_signed(&mut s, w);
    s.append("\"/></p:presentation>");
    assert(s@ =~= presentation_text(w, h, n as nat));
    s
}

fn presentation_rels_xml(n: usize) -> (s: String)
    requires
        n + 256 <= u32::MAX,
    ensures
        s@ == presentation_rels_text(n as nat),
{
    let mut s = PRESENTATION_RELS_HEAD.to_owned();
    let ghost start = s@;
    let mut k: usize = 0;
    while k < n
        invariant
            k <= n,
            n + 256 <= u32::MAX,
            s@ == start + slide_rels(k as nat),
        decreases n - k,
    {
        s.append("<Relationship Id=\"rId");
        push_decimal(&mut s, k as u64 + 2);
        s.append("\" Type=\"http://schemas.openxmlformats.org/officeDocument/2006/relationships/slide\" Target=\"slides/slide");
        push_decimal(&mut s, k as u64 + 1);
        s.append(".xml\"/>");
        k = k + 1;
        assert(s@ =~= start + slide_rels(k as nat));
    }
    s.append("<Relationship Id=\"rId");
    push_decimal(&mut s, n as u64 + 2);
    s.append("\" Type=\"http://schemas.openxmlformats.org/officeDocument/2006/relationships/theme\" Target=\"theme/theme1.xml\"/></Relationships>");
    assert(s@ =~= presentation_rels_text(n as nat));
    s
}

fn numbered_name(prefix: &str, k: u64, suffix: &str) -> (s: String)
    ensures
        s@ == prefix@ + decimal(k as nat) + suffix@,
{
    let mut s = prefix.to_owned();
    push_decimal(&mut s, k);
    s.append(suffix);
    s
}

fn plumbing_parts(w: i64, h: i64, n: usize) -> (parts: Vec<(String, String)>)
    requires
        n + 256 <= u32::MAX,
    ensures
        parts_view(parts@) == plumbing_spec(w, h, n as nat),
{
    reveal(plumbing_spec);
    let mut parts: Vec<(String, String)> = Vec::new();
    parts.push(("[Content_Types].xml".to_owned(), content_types_xml(n)));
    parts.push(("_rels/.rels".to_owned(), ROOT_RELS.to_owned()));
    parts.push(("ppt/presentation.xml".to_owned(), presentation_xml(w, h, n)));
    parts.push(("ppt/_rels/presentation.xml.rels".to_owned(), presentation_rels_xml(n)));
    assert(parts_view(parts@) =~= seq![
        ("[Content_Types].xml"@, content_types_text(n as nat)),
        ("_rels/.rels"@, ROOT_RELS@),
        ("ppt/presentation.xml"@, presentation_text(w, h, n as nat)),
        ("ppt/_rels/presentation.xml.rels"@, presentation_rels_text(n as nat)),
    ]);
    parts
}

fn design_parts(theme: &Theme) -> (parts: Vec<(String, String)>)
    ensures
        parts_view(parts@) == design_spec(theme@),
{
    reveal(design_spec);
    let mut parts: Vec<(String, String)> = Vec::new();
    parts.push(("ppt/slideMasters/slideMaster1.xml".to_owned(), slide_master_xml()));
    parts.push(("ppt/slideMasters/_rels/slideMaster1.xml.rels".to_owned(), MASTER_RELS.to_owned()));
    parts.push(("ppt/slideLayouts/slideLayout1.xml".to_owned(), slide_layout_xml()));
    parts.push(("ppt/slideLayouts/_rels/slideLayout1.xml.rels".to_owned(), LAYOUT_RELS.to_owned()));
    parts.push(("ppt/theme/theme1.xml".to_owned(), theme_xml(theme)));
    assert(parts_view(parts@) =~= seq![
        ("ppt/slideMasters/slideMaster1.xml"@, SLIDE_MASTER_XML@),
        ("ppt/slideMasters/_rels/slideMaster1.xml.rels"@, MASTER_RELS@),
        ("ppt/slideLayouts/slideLayout1.xml"@, SLIDE_LAYOUT_XML@),
        ("ppt/slideLayouts/_rels/slideLayout1.xml.rels"@, LAYOUT_RELS@),
        ("ppt/theme/theme1.xml"@, theme_xml_text(theme@)),
    ]);
    parts
}

#[verifier::spinoff_prover]
fn fixed_part_list(w: i64, h: i64, theme: &Theme, n: usize) -> (parts: Vec<(String, String)>)
    requires
        n + 256 <= u32::MAX,
    ensures
        parts_view(parts@) == fixed_parts(w, h, theme@, n as nat),
{
    let mut parts = plumbing_parts(w, h, n);
    let mut rest = design_parts(theme);
    let ghost a = parts@;
    let ghost b = rest@;
    parts.append(&mut rest);
    proof {
        lemma_parts_view_add(a, b);
    }
    parts
}

proof fn lemma_parts_view_add(a: Seq<(String, String)>, b: Seq<(String, String)>)
    ensures
        parts_view(a + b) == parts_view(a) + parts_view(b),
{
    assert(parts_view(a + b) =~= parts_view(a) + parts_view(b));
}

fn push_slide_parts(parts: &mut Vec<(String, String)>, slides: Vec<String>)
    requires
        slides@.len() + 256 <= u32::MAX,
    ensures
        parts_view(final(parts)@) == parts_view(old(parts)@) + slide_parts(strings_view(slides@)),
{
    let ghost orig = slides@;
    let ghost xs = strings_view(orig);
    let ghost head = parts_view(parts@);
    let mut k: usize = 0;
    for x in iter: slides
        invariant
            iter.seq() == orig,
            xs == strings_view(orig),
            k == iter.index(),
            k <= orig.len(),
            orig.len() + 256 <= u32::MAX,
            parts_view(parts@) == head + slide_parts(xs.take(k as int)),
    {
        assert(k < orig.len());
        let name = numbered_name("ppt/slides/slide", k as u64 + 1, ".xml");
        let rels = numbered_name("ppt/slides/_rels/slide", k as u64 + 1, ".xml.rels");
        let ghost before = parts@;
        parts.push((name, x));
        parts.push((rels, SLIDE_RELS.to_owned()));
        proof {
            assert(xs.take(k + 1).drop_last() =~= xs.take(k as int));
            assert(xs.take(k + 1).last() == orig[k as int]@);
            assert(parts_view(parts@) =~= parts_view(before) + seq![
                (slide_part_name((k + 1) as nat), orig[k as int]@),
                (slide_rels_name((k + 1) as nat), SLIDE_RELS@),
            ]);
            assert(parts_view(parts@) =~= head + slide_parts(xs.take(k + 1)));
        }
        k = k + 1;
    }
    assert(xs.take(orig.len() as int) =~= xs);
}

/// Every part of a package holding the slide parts `slides` (in order), for a presentation of
/// the given slide size and theme, as (part name, content) pairs in the order they are
/// written.
pub fn package_parts(w: i64, h: i64, theme: &Theme, slides: Vec<String>) -> (parts: Vec<
    (String, String),
>)
    requires
        slides@.len() + 256 <= u32::MAX,
    ensures
        parts_view(parts@) == package_parts_spec(w, h, theme@, strings_view(slides@)),
{
    let n = slides.len();
    let mut parts = fixed_part_list(w, h, theme, n);
    push_slide_parts(&mut parts, slides);
    parts
}

// ---------------------------------------------------------------------------------------
// Themes of an export

/// The default theme of a platform, as plain values.
pub open spec fn default_theme_view(platform: Platform) -> ThemeView {
    let f = ScriptFontsView {
        latin: spec_sans_family(platform),
        ea: spec_sans_family(platform),
        cs: spec_sans_family(platform),
    };
    ThemeView { colors: default_colors_spec(), fonts: FontSchemeView { major: f, minor: f } }
}

/// The theme in effect for `slide`, through its master, if it has one.
pub open spec fn slide_theme_view(w: &World, slide: Entity) -> Option<ThemeView> {
    match spec_master_of(w, slide) {
        Some(m) => if w.master_info@.contains_key(m.0) {
            Some(w.master_info@[m.0].theme@)
        } else {
            None
        },
        None => None,
    }
}

fn default_theme(platform: Platform) -> (t: Theme)
    ensures
        t@ == default_theme_view(platform),
{
    let t = Theme::default_for(platform);
    assert(t@.fonts.major =~= default_theme_view(platform).fonts.major);
    assert(t@.fonts.minor =~= default_theme_view(platform).fonts.minor);
    t
}

/// The theme a slide part is written with: the slide's own, or the platform default.
pub fn slide_export_theme(pres: &Presentation, slide: Entity, platform: Platform) -> (t: Theme)
    ensures
        t@ == match slide_theme_view(&pres.world, slide) {
            Some(v) => v,
            None => default_theme_view(platform),
        },
{
    match pres.theme_of(slide) {
        Some(t) => t.duplicate(),
        None => default_theme(platform),
    }
}

/// The theme of the package's theme part: the first slide's, else the default master's, else
/// the platform default.
pub open spec fn package_theme_view(w: &World, default_master: Option<Entity>, platform: Platform) -> ThemeView {
    let slides = listing(w, Selector::Slides);
    if slides.len() > 0 && slide_theme_view(w, slides[0]) is Some {
        slide_theme_view(w, slides[0]).unwrap()
    } else {
        match default_master {
            Some(m) => if w.master_info@.contains_key(m.0) {
                w.master_info@[m.0].theme@
            } else {
                default_theme_view(platform)
            },
            None => default_theme_view(platform),
        }
    }
}

/// The theme of the package's theme part.
pub fn package_theme(pres: &Presentation, platform: Platform) -> (t: Theme)
    ensures
        t@ == package_theme_view(&pres.world, pres.default_master, platform),
{
    let slides = pres.slides();
    if slides.len() > 0 {
        match pres.theme_of(slides[0]) {
            Some(t) => {
                return t.duplicate();
            },
            None => {},
        }
    }
    match pres.default_master {
        Some(m) => match pres.world.master_info.get(&m.0) {
            Some(mi) => mi.theme.duplicate(),
            None => default_theme(platform),
        },
        None => default_theme(platform),
    }
}

} // verus!
