//! Importing a PPTX package: tokenizing its XML parts with `quick_xml`, and building the
//! presentation from what the parts say. Reading the package's ZIP entries is the caller's.

use crate::color::{Color, Rgba};
use crate::font::{FontRef, ThemeFontSlot};
use crate::geom::{RectEmu, SizeEmu};
use crate::ooxml::{
    find_rel_target, normalize_part_path, normalize_part_path_spec, pairs_view,
    parse_presentation_tokens, parse_rels_tokens, read_slide_tokens, rel_target, strings_view,
    ParsedShape, XmlToken, XmlTokenView, attr_view, attrs_view, is_stop, parse_presentation_spec, parse_rels_spec,
    read_slide_spec, shapes_view, tokens_view,
};
use crate::paint::Fill;
use crate::presentation::{is_order_of, Presentation, Selector};
use crate::shape::Geometry;
use crate::text::{HAlign, Paragraph, ParagraphView, Run, RunView, TextBody, TextBodyView, SINGLE_SPACING};
use crate::font::FontRefView;
use crate::theme::{Platform, Theme};
use crate::units::pt;
use crate::world::{CompKind, Entity};
use quick_xml::events::Event::{Empty, End as Close, Eof as Done, Start, Text as Chars};
use quick_xml::reader::Reader;
use vstd::prelude::*;
use vstd::string::StringSliceAdditionalSpecFns;

verus! {

use RawToken::{Element, End, Eof, Failed, Other, Text};

#[verifier::external_type_specification]
#[verifier::external_body]
#[verifier::reject_recursive_types(R)]
pub struct ExXmlReader<R>(Reader<R>);

/// One attribute as the reader hands it over: `None` when it does not parse, else its key
/// and its value with escapes replaced (`None` when the value does not unescape).
pub type RawAttr = Option<(Vec<u8>, Option<String>)>;

/// One event as plain values: an element start (or empty element) with its qualified name
/// and attributes, an element end, text with escapes replaced (`None` when it does not
/// unescape), anything else, the end of input, or a syntax error.
pub enum RawToken {
    Element { empty: bool, name: Vec<u8>, attrs: Vec<RawAttr> },
    End { name: Vec<u8> },
    Text(Option<String>),
    Other,
    Eof,
    Failed,
}

pub open spec fn raw_attr_view(a: RawAttr) -> Option<(Seq<u8>, Option<Seq<char>>)> {
    match a {
        Some((k, v)) => Some((k@, match v {
            Some(s) => Some(s@),
            None => None,
        })),
        None => None,
    }
}

pub enum RawTokenView {
    Element { empty: bool, name: Seq<u8>, attrs: Seq<Option<(Seq<u8>, Option<Seq<char>>)>> },
    End { name: Seq<u8> },
    Text(Option<Seq<char>>),
    Other,
    Eof,
    Failed,
}

impl View for RawToken {
    type V = RawTokenView;

    open spec fn view(&self) -> RawTokenView {
        match self {
            RawToken::Element { empty, name, attrs } => RawTokenView::Element {
                empty: *empty,
                name: name@,
                attrs: attrs@.map_values(|a: RawAttr| raw_attr_view(a)),
            },
            RawToken::End { name } => RawTokenView::End { name: name@ },
            RawToken::Text(t) => RawTokenView::Text(match t {
                Some(s) => Some(s@),
                None => None,
            }),
            RawToken::Other => RawTokenView::Other,
            RawToken::Eof => RawTokenView::Eof,
            RawToken::Failed => RawTokenView::Failed,
        }
    }
}

/// The `k`-th event (counting from 0) that a `quick_xml` reader made by `Reader::from_str`
/// over `xml` gives, as plain values. It depends on the text and the count alone.
pub uninterp spec fn quick_xml_event(xml: Seq<char>, k: nat) -> RawTokenView;

/// A reader over a text, with the text and the number of events read so far. Only
/// [`xml_reader`] makes one and only [`next_event`] moves it.
pub struct XmlCursor<'a> {
    reader: Reader<&'a [u8]>,
    src: Ghost<Seq<char>>,
    read: Ghost<nat>,
}

impl<'a> XmlCursor<'a> {
    pub closed spec fn source(&self) -> Seq<char> {
        self.src@
    }

    pub closed spec fn events_read(&self) -> nat {
        self.read@
    }

    /// `self` is `prev` after one more event: the same text, one more event read.
    pub open spec fn follows(&self, prev: &XmlCursor) -> bool {
        self.source() == prev.source() && self.events_read() == prev.events_read() + 1
    }
}

/// A reader over `xml` that has read nothing. Calls `quick_xml::Reader::from_str`.
#[verifier::external_body]
fn xml_reader<'a>(xml: &'a str) -> (c: XmlCursor<'a>)
    ensures
        c.source() == xml@,
        c.events_read() == 0,
{
    XmlCursor { reader: Reader::from_str(xml), src: Ghost(xml@), read: Ghost(0) }
}

/// The next event of the cursor's reader, as plain values: the event with the cursor's
/// count in [`quick_xml_event`] for its text. Calls `quick_xml::Reader::read_event`, and
/// for an element its `name` and `attributes` (each attribute's `key` and
/// `unescape_value`), for text its `unescape`.
#[verifier::external_body]
fn next_event(c: &mut XmlCursor) -> (t: RawToken)
    ensures
        final(c).follows(old(c)),
        t@ == quick_xml_event(old(c).source(), old(c).events_read()),
{
    let ev = match c.reader.read_event() {
        Ok(ev) => ev,
        Err(_) => return Failed,
    };
    let (empty, e) = match ev {
        Start(e) => (false, e),
        Empty(e) => (true, e),
        Close(e) => return End { name: e.name().0.to_vec() },
        Chars(t) => return Text(t.unescape().ok().map(Into::into)),
        Done => return Eof,
        _ => return Other,
    };
    Element { empty, name: e.name().0.to_vec(), attrs: e.attributes().map(|a| a.ok().map(|a| (a.key.0.to_vec(), a.unescape_value().ok().map(Into::into)))).collect() }
}

/// The attributes that parsed, in order.
pub open spec fn present_attrs(raw: Seq<Option<(Seq<u8>, Option<Seq<char>>)>>) -> Seq<(Seq<u8>, Option<Seq<char>>)>
    decreases raw.len(),
{
    if raw.len() == 0 {
        Seq::empty()
    } else {
        let rest = present_attrs(raw.drop_last());
        match raw.last() {
            Some(a) => rest.push(a),
            None => rest,
        }
    }
}

/// The token an event becomes: its attributes that parsed, and for an element start the
/// start or empty-element token.
pub open spec fn token_of(t: RawTokenView) -> XmlTokenView {
    match t {
        RawTokenView::Element { empty, name, attrs } => if empty {
            XmlTokenView::Empty { name, attrs: present_attrs(attrs) }
        } else {
            XmlTokenView::Start { name, attrs: present_attrs(attrs) }
        },
        RawTokenView::End { name } => XmlTokenView::End { name },
        RawTokenView::Text(x) => XmlTokenView::Text(x),
        RawTokenView::Other => XmlTokenView::Other,
        RawTokenView::Eof => XmlTokenView::Eof,
        RawTokenView::Failed => XmlTokenView::Failed,
    }
}

/// The tokens of `xml` from its `k`-th event on, read while fewer than `n + 1` events have
/// been read: up to and including the end of input or the first syntax error.
pub open spec fn tokens_from(xml: Seq<char>, n: nat, k: nat) -> Seq<XmlTokenView>
    decreases n + 1 - k,
{
    if k > n {
        Seq::empty()
    } else {
        let t = token_of(quick_xml_event(xml, k));
        if is_stop(t) {
            seq![t]
        } else {
            seq![t] + tokens_from(xml, n, k + 1)
        }
    }
}

/// The tokens of a text of `n` bytes: every token but the end takes at least one byte, so
/// at most `n + 1` events are read.
pub open spec fn xml_token_stream(xml: Seq<char>, n: nat) -> Seq<XmlTokenView> {
    tokens_from(xml, n, 0)
}

/// The attributes that parsed, in order, as (key, value) pairs.
fn read_attributes(raw: Vec<RawAttr>) -> (attrs: Vec<(Vec<u8>, Option<String>)>)
    ensures
        attrs_view(attrs@) == present_attrs(raw@.map_values(|a: RawAttr| raw_attr_view(a))),
{
    let ghost rv = raw@.map_values(|a: RawAttr| raw_attr_view(a));
    let ghost orig = raw@;
    let mut attrs: Vec<(Vec<u8>, Option<String>)> = Vec::new();
    proof {
        assert(rv.take(0) =~= Seq::<Option<(Seq<u8>, Option<Seq<char>>)>>::empty());
        assert(attrs_view(attrs@) =~= present_attrs(rv.take(0)));
    }
    for a in iter: raw
        invariant
            iter.seq() == orig,
            rv == orig.map_values(|a: RawAttr| raw_attr_view(a)),
            attrs_view(attrs@) == present_attrs(rv.take(iter.index() as int)),
    {
        let ghost j = iter.index();
        let ghost before = attrs@;
        proof {
            assert(orig[j as int] == a);
            assert(rv.take(j + 1).drop_last() =~= rv.take(j as int));
            assert(rv.take(j + 1).last() == raw_attr_view(a));
        }
        match a {
            Some(p) => {
                attrs.push(p);
                proof {
                    assert(attrs_view(attrs@) =~= attrs_view(before).push(attr_view(attrs@.last())));
                }
            },
            None => {},
        }
    }
    proof {
        assert(rv.take(orig.len() as int) =~= rv);
    }
    attrs
}

/// The tokens of `xml`, up to and including the end of input or the first syntax error;
/// at most `xml.len() + 1` are read.
pub fn xml_tokens(xml: &str) -> (ts: Vec<XmlToken>)
    ensures
        tokens_view(ts@) == xml_token_stream(xml@, xml.len() as nat),
{
    let limit = xml.len();
    let mut cur = xml_reader(xml);
    let mut ts: Vec<XmlToken> = Vec::new();
    let mut n: usize = 0;
    loop
        invariant
            limit == xml.len(),
            n <= limit,
            cur.source() == xml@,
            cur.events_read() == n,
            tokens_view(ts@) + tokens_from(xml@, limit as nat, n as nat) == xml_token_stream(
                xml@,
                limit as nat,
            ),
        decreases limit + 1 - n,
    {
        let raw = next_event(&mut cur);
        let tok = match raw {
            RawToken::Element { empty, name, attrs } => {
                let attrs = read_attributes(attrs);
                if empty {
                    XmlToken::Empty { name, attrs }
                } else {
                    XmlToken::Start { name, attrs }
                }
            },
            RawToken::End { name } => XmlToken::End { name },
            RawToken::Text(t) => XmlToken::Text(t),
            RawToken::Other => XmlToken::Other,
            RawToken::Eof => XmlToken::Eof,
            RawToken::Failed => XmlToken::Failed,
        };
        let ghost tv = token_of(quick_xml_event(xml@, n as nat));
        assert(tok@ == tv);
        let stop = match tok {
            XmlToken::Eof | XmlToken::Failed => true,
            _ => false,
        };
        let ghost before = ts@;
        ts.push(tok);
        proof {
            assert(tokens_view(ts@) =~= tokens_view(before).push(tv));
        }
        if stop {
            proof {
                assert(tokens_from(xml@, limit as nat, n as nat) == seq![tv]);
                assert(tokens_view(ts@) =~= tokens_view(before) + seq![tv]);
            }
            return ts;
        }
        proof {
            assert(tokens_from(xml@, limit as nat, n as nat) == seq![tv] + tokens_from(xml@, limit as nat, (n + 1) as nat));
            assert(tokens_view(ts@) + tokens_from(xml@, limit as nat, (n + 1) as nat) =~= tokens_view(before) + (seq![tv] + tokens_from(xml@, limit as nat, (n + 1) as nat)));
        }
        if n == limit {
            proof {
                assert(tokens_from(xml@, limit as nat, (n + 1) as nat) == Seq::<XmlTokenView>::empty());
                assert(tokens_view(ts@) =~= tokens_view(ts@) + Seq::<XmlTokenView>::empty());
            }
            return ts;
        }
        n = n + 1;
    }
}

/// Parse `ppt/presentation.xml` for the slide size and the ordered list of slide
/// relationship ids.
pub fn parse_presentation(xml: &str) -> (r: (Option<SizeEmu>, Vec<String>))
    ensures
        r.0 == parse_presentation_spec(xml_token_stream(xml@, xml.len() as nat)).size,
        strings_view(r.1@) == parse_presentation_spec(xml_token_stream(xml@, xml.len() as nat)).rids,
{
    let ts = xml_tokens(xml);
    parse_presentation_tokens(&ts)
}

/// Parse a `*.rels` part into (relationship id, target path) pairs, in document order.
pub fn parse_rels(xml: &str) -> (r: Vec<(String, String)>)
    ensures
        pairs_view(r@) == parse_rels_spec(xml_token_stream(xml@, xml.len() as nat)),
{
    let ts = xml_tokens(xml);
    parse_rels_tokens(&ts)
}

/// Read the shapes of one `ppt/slides/slideN.xml`; the flag is set when the part nests
/// elements past the range of the reader's depth count, and the shapes are then incomplete.
pub fn read_slide(xml: &str) -> (r: (Vec<ParsedShape>, bool))
    ensures
        r.1 == read_slide_spec(xml_token_stream(xml@, xml.len() as nat)).fault,
        !r.1 ==> shapes_view(r.0@) == read_slide_spec(xml_token_stream(xml@, xml.len() as nat)).done,
{
    let ts = xml_tokens(xml);
    read_slide_tokens(&ts)
}

// ---------------------------------------------------------------------------------------
// Building the presentation

/// The run an imported text becomes: the minor theme font at 18 pt, in black.
pub open spec fn imported_run(t: Seq<char>) -> RunView {
    RunView {
        text: t,
        font: FontRefView::Theme(ThemeFontSlot::Minor),
        size: 228_600,
        color: Color::Literal(Rgba { r: 0, g: 0, b: 0, a: 255 }),
        bold: false,
        italic: false,
        underline: false,
    }
}

/// The paragraph an imported text becomes: one run, left-aligned, single-spaced.
pub open spec fn imported_paragraph(t: Seq<char>) -> ParagraphView {
    ParagraphView {
        runs: seq![imported_run(t)],
        align: HAlign::Left,
        bullet_level: 0,
        line_spacing: SINGLE_SPACING,
    }
}

/// The text body imported texts become: one paragraph per text.
pub open spec fn imported_body(texts: Seq<Seq<char>>) -> TextBodyView {
    TextBodyView {
        paragraphs: texts.map_values(|t: Seq<char>| imported_paragraph(t)),
        autofit: false,
    }
}

fn imported_text_body(texts: &Vec<String>) -> (tb: TextBody)
    ensures
        tb@ == imported_body(strings_view(texts@)),
{
    let mut paragraphs: Vec<Paragraph> = Vec::new();
    let mut i: usize = 0;
    while i < texts.len()
        invariant
            i <= texts@.len(),
            paragraphs@.len() == i,
            forall|j: int| 0 <= j < i ==> #[trigger] paragraphs@[j]@ == imported_paragraph(texts@[j]@),
        decreases texts@.len() - i,
    {
        let run = Run {
            text: texts[i].clone(),
            font: FontRef::Theme(ThemeFontSlot::Minor),
            size: pt(18),
            color: Color::literal(Rgba::black()),
            bold: false,
            italic: false,
            underline: false,
        };
        let runs = vec![run];
        let p = Paragraph::new(runs);
        assert(p@.runs =~= seq![imported_run(texts@[i as int]@)]);
        paragraphs.push(p);
        i = i + 1;
    }
    let tb = TextBody { paragraphs, autofit: false };
    assert(tb@.paragraphs =~= imported_body(strings_view(texts@)).paragraphs);
    tb
}

/// Build a shape under `slide` from what its `<p:sp>` gave: a frame when both the offset and
/// the extent are known, the rotation (degrees, as the bit pattern of an `f32`), geometry and
/// solid fill when present, and one paragraph per text.
pub fn commit_shape(
    pres: &mut Presentation,
    slide: Entity,
    off: Option<(i64, i64)>,
    ext: Option<(i64, i64)>,
    rotation: Option<u32>,
    geometry: Option<Geometry>,
    fill: Option<Color>,
    texts: &Vec<String>,
) -> (e: Entity)
    requires
        old(pres).world.wf(),
        old(pres).world.next_id() < u64::MAX,
    ensures
        final(pres).world.wf(),
        e.0 == old(pres).world.next_id(),
        final(pres).world.live() == old(pres).world.live().insert(e.0),
        final(pres).world.parent@ == old(pres).world.parent@.insert(e.0, slide),
        forall|s: Seq<Entity>| #[trigger] is_order_of(&old(pres).world, s, Selector::ChildOf(slide))
            ==> is_order_of(&final(pres).world, s.push(e), Selector::ChildOf(slide)),
        final(pres).world.frames@ == match (off, ext) {
            (Some((x, y)), Some((cx, cy))) => old(pres).world.frames@.insert(
                e.0,
                RectEmu {
                    origin: crate::geom::PointEmu { x, y },
                    size: crate::geom::SizeEmu { w: cx, h: cy },
                },
            ),
            _ => old(pres).world.frames@,
        },
        final(pres).world.rotations@ == match rotation {
            Some(r) => old(pres).world.rotations@.insert(e.0, r),
            None => old(pres).world.rotations@,
        },
        final(pres).world.geometries@ == match geometry {
            Some(g) => old(pres).world.geometries@.insert(e.0, g),
            None => old(pres).world.geometries@,
        },
        final(pres).world.fills@ == match fill {
            Some(c) => old(pres).world.fills@.insert(e.0, Fill::Solid(c)),
            None => old(pres).world.fills@,
        },
        texts@.len() == 0 ==> final(pres).world.texts@ == old(pres).world.texts@,
        texts@.len() > 0 ==> final(pres).world.texts@.dom() == old(pres).world.texts@.dom().insert(e.0)
            && final(pres).world.texts@[e.0]@ == imported_body(strings_view(texts@))
            && forall|k: u64| k != e.0 && old(pres).world.texts@.contains_key(k)
                ==> #[trigger] final(pres).world.texts@[k] == old(pres).world.texts@[k],
        final(pres).world.columns_agree_except(
            &old(pres).world,
            e.0,
            set![
                CompKind::Parent,
                CompKind::Order,
                CompKind::Frame,
                CompKind::Rotation,
                CompKind::Geometry,
                CompKind::Fill,
                CompKind::Text,
            ],
        ),
        final(pres).slide_size == old(pres).slide_size,
        final(pres).default_master == old(pres).default_master,
        final(pres).media@ == old(pres).media@,
{
    let e = pres.add_shape(slide);
    match (off, ext) {
        (Some((x, y)), Some((cx, cy))) => {
            pres.world.frames.insert(e.0, RectEmu::new(x, y, cx, cy));
        },
        _ => {},
    }
    match rotation {
        Some(r) => {
            pres.world.rotations.insert(e.0, r);
        },
        None => {},
    }
    match geometry {
        Some(g) => {
            pres.world.geometries.insert(e.0, g);
        },
        None => {},
    }
    match fill {
        Some(c) => {
            pres.world.fills.insert(e.0, Fill::Solid(c));
        },
        None => {},
    }
    if texts.len() > 0 {
        let tb = imported_text_body(texts);
        pres.world.texts.insert(e.0, tb);
    }
    e
}

/// The document an import starts from: the slide size read from the package (when it gave
/// one), one master with the platform's default theme, and one layout named `Imported`
/// under it. Returns the document and the layout.
pub fn import_skeleton(size: Option<SizeEmu>, platform: Platform) -> (r: (Presentation, Entity))
    ensures
        r.0.world.wf(),
        r.0.slide_size == match size {
            Some(s) => s,
            None => SizeEmu {
                w: crate::presentation::SLIDE_WIDTH_16_9,
                h: crate::presentation::SLIDE_HEIGHT_16_9,
            },
        },
        r.0.world.live() == set![0u64, 1u64],
        r.0.world.next_id() == 2,
        r.0.default_master == Some(Entity(0)),
        r.1 == Entity(1),
        r.0.world.master_info@.contains_key(0),
        r.0.world.layout_info@.contains_key(1),
        r.0.world.layout_info@[1].master == Entity(0),
        r.0.world.layout_info@[1].name@ == "Imported"@,
{
    let mut pres = Presentation::new();
    match size {
        Some(s) => {
            pres.slide_size = s;
        },
        None => {},
    }
    let master = pres.add_master(Theme::default_for(platform));
    let layout = pres.add_layout(master, "Imported");
    assert(pres.world.live() =~= set![0u64, 1u64]);
    (pres, layout)
}

/// The part paths of the slides, in order: each slide relationship id resolved through the
/// relationships to its target, normalized; ids without a target are skipped.
pub open spec fn slide_paths_spec(rids: Seq<Seq<char>>, rels: Seq<(Seq<char>, Seq<char>)>) -> Seq<
    Seq<char>,
>
    decreases rids.len(),
{
    if rids.len() == 0 {
        Seq::empty()
    } else {
        let prev = slide_paths_spec(rids.drop_last(), rels);
        match rel_target(rels, rids.last()) {
            Some(t) => prev.push(normalize_part_path_spec(t)),
            None => prev,
        }
    }
}

/// The part paths of the slides named by `rids`, resolved through `rels`.
pub fn slide_part_paths(rids: &Vec<String>, rels: &Vec<(String, String)>) -> (paths: Vec<String>)
    ensures
        strings_view(paths@) == slide_paths_spec(strings_view(rids@), pairs_view(rels@)),
{
    let ghost rv = strings_view(rids@);
    let mut paths: Vec<String> = Vec::new();
    let mut i: usize = 0;
    while i < rids.len()
        invariant
            i <= rids@.len(),
            rv == strings_view(rids@),
            strings_view(paths@) == slide_paths_spec(rv.take(i as int), pairs_view(rels@)),
        decreases rids@.len() - i,
    {
        assert(rv.take(i + 1).drop_last() =~= rv.take(i as int));
        match find_rel_target(rels, rids[i].as_str()) {
            Some(t) => {
                let p = normalize_part_path(t.as_str());
                let ghost before = paths@;
                paths.push(p);
                assert(strings_view(paths@) =~= strings_view(before).push(p@));
            },
            None => {},
        }
        i = i + 1;
    }
    assert(rv.take(rids@.len() as int) =~= rv);
    paths
}

} // verus!
