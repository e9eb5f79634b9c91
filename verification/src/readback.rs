//! Reading back what the exporter writes: the XML events of a written slide part, as a
//! conforming XML reader reports them, and what the slide reader makes of them.
//!
//! The exporter's text (`pptx::slide_text`) and the events below describe the same
//! document: one event per tag, attribute values and character data unescaped, and no
//! character data event for an empty `<a:t></a:t>`.

use crate::color::{Color, Rgba};
use crate::geom::RectEmu;
use crate::ooxml::{
    attr_lookup, all_digits, digits_value, first_stop, is_stop, last_colon_before,
    fresh_shape, read_slide_spec, local_name_spec, parse_hex_rgb_spec, parse_i64_spec, preset_geometry, slide_fold, slide_step,
    unsigned_part, ParsedShapeView, SlideReadView, XmlTokenView, adj_guide, guide_val, radius_from_adj, shape_attrs,
};
use crate::pptx::{adj_of_radius, align_code, hundredth_pt, preset_name, ParaXmlView, RunXmlView, ShapeXmlView};
use crate::geom::RectEmu as Frame;
use crate::shape::Geometry;
use crate::paths::{is_white_space, lemma_trimmed, trimmed, trims_to};
use crate::commands::{hex_value, hex_pair};
use crate::textnav::{is_boundary, utf8_offset};
use crate::xmltext::{decimal, digit_char, hex_rgb_text, hex_upper, signed_decimal};
use vstd::prelude::*;
use vstd::string::StringSliceAdditionalSpecFns;
use vstd::utf8::{encode_utf8, is_ascii_chars, is_ascii_chars_encode_utf8};

verus! {

/// The qualified name `pfx:local`, as bytes.
pub open spec fn qn(pfx: char, local: Seq<char>) -> Seq<u8> {
    encode_utf8(seq![pfx, ':'] + local)
}

/// ASCII text without a colon.
pub open spec fn plain_name(cs: Seq<char>) -> bool {
    &&& is_ascii_chars(cs)
    &&& forall|i: int| 0 <= i < cs.len() ==> #[trigger] cs[i] != ':'
}

/// The reader sees the local part of a qualified name.
pub proof fn lemma_local_name(pfx: char, local: Seq<char>)
    requires
        plain_name(seq![pfx]),
        plain_name(local),
    ensures
        local_name_spec(qn(pfx, local)) == local,
{
    let cs = seq![pfx, ':'] + local;
    assert forall|i: int| 0 <= i < cs.len() implies '\0' <= #[trigger] cs[i] <= '\u{7f}' by {
        if i == 0 {
            assert(seq![pfx][0] == pfx);
        } else if i >= 2 {
            assert(cs[i] == local[i - 2]);
        }
    }
    assert(is_ascii_chars(cs));
    is_ascii_chars_encode_utf8(cs);
    is_ascii_chars_encode_utf8(local);
    let b = qn(pfx, local);
    assert(b.len() == local.len() + 2);
    assert forall|i: int| 2 <= i < cs.len() implies #[trigger] cs[i] != ':' by {
        assert(cs[i] == local[i - 2]);
    }
    lemma_colon_scan(b, b.len() as int, cs);
    assert(b.skip(2) =~= encode_utf8(local));
    vstd::utf8::encode_utf8_decode_utf8(local);
    vstd::utf8::encode_utf8_valid_utf8(local);
}

proof fn lemma_colon_scan(b: Seq<u8>, n: int, cs: Seq<char>)
    requires
        2 <= n <= b.len(),
        b.len() == cs.len(),
        cs.len() >= 2,
        cs[1] == ':',
        forall|i: int| 2 <= i < cs.len() ==> #[trigger] cs[i] != ':',
        forall|i: int| 0 <= i < cs.len() ==> cs[i] as u8 == #[trigger] b[i],
        is_ascii_chars(cs),
    ensures
        last_colon_before(b, n) == 1,
    decreases n,
{
    if n > 2 {
        let c = cs[n - 1];
        assert('\0' <= c <= '\u{7f}');
        assert(c != ':');
        assert(b[n - 1] == c as u8);
        assert(b[n - 1] != 58) by {
            assert((c as u32) < 128);
            assert((c as u32) != 58);
        }
        lemma_colon_scan(b, n - 1, cs);
    } else {
        assert(b[1] == 58);
    }
}

proof fn lemma_digit_char(d: nat)
    requires
        d < 10,
    ensures
        digit_char(d) as int == d + 48,
        '0' <= digit_char(d) <= '9',
{
    let c = digit_char(d);
    let u = (d + 48) as u32;
    assert(c == u as char);
    assert(u as char as u32 == u);
}

proof fn lemma_decimal_digits(n: nat)
    ensures
        decimal(n).len() > 0,
        all_digits(decimal(n)),
        digits_value(decimal(n)) == n,
        forall|i: int| 0 <= i < decimal(n).len() ==> '0' <= #[trigger] decimal(n)[i] <= '9',
    decreases n,
{
    if n < 10 {
        lemma_digit_char(n);
        assert(decimal(n)[0] == digit_char(n));
        assert(decimal(n).drop_last() =~= Seq::<char>::empty());
        assert(decimal(n).last() == digit_char(n));
        assert(digits_value(decimal(n)) == digits_value(Seq::<char>::empty()) * 10 + (digit_char(n) as int - 48));
    } else {
        lemma_decimal_digits(n / 10);
        lemma_digit_char(n % 10);
        let d = decimal(n / 10);
        assert(decimal(n) == d.push(digit_char(n % 10)));
        assert(decimal(n).drop_last() =~= d);
        assert(decimal(n).last() == digit_char(n % 10));
        assert(digits_value(decimal(n)) == digits_value(d) * 10 + (digit_char(n % 10) as int - 48));
        assert((n / 10) * 10 + n % 10 == n);
        assert forall|i: int| 0 <= i < decimal(n).len() implies '0' <= #[trigger] decimal(n)[i] <= '9' by {
            if i < d.len() {
                assert(decimal(n)[i] == d[i]);
            }
        }
    }
}

/// A number the exporter writes reads back as the same number.
pub proof fn lemma_signed_decimal_reads_back(v: i64)
    ensures
        trimmed(signed_decimal(v as int)) == signed_decimal(v as int),
        parse_i64_spec(trimmed(signed_decimal(v as int))) == Some(v),
{
    let x = signed_decimal(v as int);
    let m: nat = if v < 0 {
        (-v) as nat
    } else {
        v as nat
    };
    lemma_decimal_digits(m);
    let d = decimal(m);
    if v < 0 {
        assert(x == seq!['-'] + d);
        assert(x[0] == '-');
        assert(x.skip(1) =~= d);
    } else {
        assert(x == d);
    }
    assert(x.len() > 0);
    assert(!is_white_space(x[0]));
    assert(x[x.len() - 1] == d[d.len() - 1]);
    assert(!is_white_space(x[x.len() - 1]));
    assert(trims_to(x, 0, x.len() as int));
    lemma_trimmed(x, 0, x.len() as int);
    assert(x.subrange(0, x.len() as int) =~= x);
    assert(unsigned_part(x) == d);
}

proof fn lemma_hex_upper(d: nat)
    requires
        d < 16,
    ensures
        '\0' <= hex_upper(d) <= '\u{7f}',
        !is_white_space(hex_upper(d)),
        hex_upper(d) as u8 != 43,
        hex_value(hex_upper(d) as u8) == Some(d as u8),
{
    let c = hex_upper(d);
    let u: u32 = if d < 10 {
        (d + 48) as u32
    } else {
        (d + 55) as u32
    };
    assert(c == u as char);
    assert(u as char as u32 == u);
    assert((c as u32) == u);
    assert(c as u8 == u as u8);
}

proof fn lemma_ascii_offsets(cs: Seq<char>, k: int)
    requires
        is_ascii_chars(cs),
        0 <= k <= cs.len(),
    ensures
        utf8_offset(cs, k) == k,
    decreases k,
{
    if k > 0 {
        lemma_ascii_offsets(cs, k - 1);
        assert('\0' <= cs[k - 1] <= '\u{7f}');
    }
}

/// A colour the exporter writes reads back as the same colour, made opaque.
pub proof fn lemma_hex_rgb_reads_back(c: Rgba)
    ensures
        trimmed(hex_rgb_text(c.r, c.g, c.b)) == hex_rgb_text(c.r, c.g, c.b),
        parse_hex_rgb_spec(trimmed(hex_rgb_text(c.r, c.g, c.b))) == Some(
            Rgba { r: c.r, g: c.g, b: c.b, a: 255 },
        ),
{
    let t = hex_rgb_text(c.r, c.g, c.b);
    let ds: Seq<nat> = seq![
        (c.r / 16) as nat,
        (c.r % 16) as nat,
        (c.g / 16) as nat,
        (c.g % 16) as nat,
        (c.b / 16) as nat,
        (c.b % 16) as nat,
    ];
    assert(t.len() == 6);
    assert forall|i: int| 0 <= i < 6 implies #[trigger] t[i] == hex_upper(ds[i]) && ds[i] < 16 by {
    }
    assert forall|i: int| 0 <= i < 6 implies '\0' <= #[trigger] t[i] <= '\u{7f}' && !is_white_space(t[i]) by {
        lemma_hex_upper(ds[i]);
    }
    assert(is_ascii_chars(t));
    assert(trims_to(t, 0, 6));
    lemma_trimmed(t, 0, 6);
    assert(t.subrange(0, 6) =~= t);
    is_ascii_chars_encode_utf8(t);
    let b = encode_utf8(t);
    lemma_hex_upper(ds[0]);
    lemma_hex_upper(ds[1]);
    lemma_hex_upper(ds[2]);
    lemma_hex_upper(ds[3]);
    lemma_hex_upper(ds[4]);
    lemma_hex_upper(ds[5]);
    assert(b[0] == t[0] as u8);
    assert(b[1] == t[1] as u8);
    assert(b[2] == t[2] as u8);
    assert(b[3] == t[3] as u8);
    assert(b[4] == t[4] as u8);
    assert(b[5] == t[5] as u8);
    assert(hex_pair(b[0], b[1]) == Some(c.r));
    assert(hex_pair(b[2], b[3]) == Some(c.g));
    assert(hex_pair(b[4], b[5]) == Some(c.b));
    lemma_ascii_offsets(t, 6);
    lemma_ascii_offsets(t, 2);
    lemma_ascii_offsets(t, 4);
    assert(is_boundary(t, 2));
    assert(is_boundary(t, 4));
}

// ---------------------------------------------------------------------------------------
// Reading a run of events

/// The reader's state after the events `ts`, starting from `st`.
pub open spec fn run_from(st: SlideReadView, ts: Seq<XmlTokenView>) -> SlideReadView
    decreases ts.len(),
{
    if ts.len() == 0 {
        st
    } else {
        slide_step(run_from(st, ts.drop_last()), ts.last())
    }
}

proof fn lemma_run_append(st: SlideReadView, a: Seq<XmlTokenView>, b: Seq<XmlTokenView>)
    ensures
        run_from(st, a + b) == run_from(run_from(st, a), b),
    decreases b.len(),
{
    if b.len() == 0 {
        assert(a + b =~= a);
    } else {
        assert((a + b).drop_last() =~= a + b.drop_last());
        assert((a + b).last() == b.last());
        lemma_run_append(st, a, b.drop_last());
    }
}

/// The reader's state before any event.
pub open spec fn initial_read() -> SlideReadView {
    SlideReadView { shape: None, in_text: false, depth: 0, done: Seq::empty(), fault: false }
}

proof fn lemma_fold_is_run(ts: Seq<XmlTokenView>, n: int)
    requires
        0 <= n <= ts.len(),
    ensures
        slide_fold(ts, n) == run_from(initial_read(), ts.take(n)),
    decreases n,
{
    if n > 0 {
        lemma_fold_is_run(ts, n - 1);
        assert(ts.take(n).drop_last() =~= ts.take(n - 1));
    }
}

// ---------------------------------------------------------------------------------------
// The events of a written slide

/// An attribute with a value.
pub open spec fn attr(key: Seq<char>, value: Seq<char>) -> (Seq<u8>, Option<Seq<char>>) {
    (encode_utf8(key), Some(value))
}

pub open spec fn start(pfx: char, local: Seq<char>, attrs: Seq<(Seq<u8>, Option<Seq<char>>)>) -> XmlTokenView {
    XmlTokenView::Start { name: qn(pfx, local), attrs }
}

pub open spec fn leaf(pfx: char, local: Seq<char>, attrs: Seq<(Seq<u8>, Option<Seq<char>>)>) -> XmlTokenView {
    XmlTokenView::Empty { name: qn(pfx, local), attrs }
}

pub open spec fn end(pfx: char, local: Seq<char>) -> XmlTokenView {
    XmlTokenView::End { name: qn(pfx, local) }
}

pub open spec fn no_attrs() -> Seq<(Seq<u8>, Option<Seq<char>>)> {
    Seq::empty()
}

/// A size written as an extent: negative sizes are written as zero.
pub open spec fn extent(v: i64) -> i64 {
    if v < 0 {
        0
    } else {
        v
    }
}

/// `<p:nvSpPr>`: id, name and whether the shape is a text box.
pub open spec fn nv_events(s: ShapeXmlView) -> Seq<XmlTokenView> {
    seq![
        start('p', "nvSpPr"@, no_attrs()),
        leaf('p', "cNvPr"@, seq![attr("id"@, decimal(s.id as nat)), attr("name"@, s.name)]),
        leaf('p', "cNvSpPr"@, if s.text is Some {
            seq![attr("txBox"@, "1"@)]
        } else {
            no_attrs()
        }),
        leaf('p', "nvPr"@, no_attrs()),
        end('p', "nvSpPr"@),
    ]
}

/// `<a:xfrm>`: rotation, offset and extent.
pub open spec fn xfrm_events(f: RectEmu, rotation: Option<i64>) -> Seq<XmlTokenView> {
    seq![
        start('a', "xfrm"@, match rotation {
            Some(u) => seq![attr("rot"@, signed_decimal(u as int))],
            None => no_attrs(),
        }),
        leaf('a', "off"@, seq![
            attr("x"@, signed_decimal(f.origin.x as int)),
            attr("y"@, signed_decimal(f.origin.y as int)),
        ]),
        leaf('a', "ext"@, seq![
            attr("cx"@, signed_decimal(extent(f.size.w) as int)),
            attr("cy"@, signed_decimal(extent(f.size.h) as int)),
        ]),
        end('a', "xfrm"@),
    ]
}

/// `<a:prstGeom>`; a rounded rectangle lists its `adj` guide.
pub open spec fn geom_events(g: Option<Geometry>, f: Frame) -> Seq<XmlTokenView> {
    match g {
        Some(Geometry::RoundRect { radius }) => seq![
            start('a', "prstGeom"@, seq![attr("prst"@, preset_name(g))]),
            start('a', "avLst"@, no_attrs()),
            leaf('a', "gd"@, seq![
                attr("name"@, "adj"@),
                attr("fmla"@, "val "@ + decimal(adj_of_radius(radius, f) as nat)),
            ]),
            end('a', "avLst"@),
            end('a', "prstGeom"@),
        ],
        _ => seq![
            start('a', "prstGeom"@, seq![attr("prst"@, preset_name(g))]),
            leaf('a', "avLst"@, no_attrs()),
            end('a', "prstGeom"@),
        ],
    }
}

/// The geometry read back from a written preset on frame `f`: a rounded rectangle's radius
/// comes back through its `adj` guide.
pub open spec fn geom_read(g: Option<Geometry>, f: Frame) -> Option<Geometry> {
    match g {
        Some(Geometry::RoundRect { radius }) => Some(
            Geometry::RoundRect {
                radius: radius_from_adj(
                    adj_of_radius(radius, f) as i64,
                    Some((extent(f.size.w), extent(f.size.h))),
                ),
            },
        ),
        _ => preset_geometry(preset_name(g)),
    }
}

/// `<a:solidFill>` with a literal colour.
pub open spec fn fill_events(c: Rgba) -> Seq<XmlTokenView> {
    seq![
        start('a', "solidFill"@, no_attrs()),
        leaf('a', "srgbClr"@, seq![attr("val"@, hex_rgb_text(c.r, c.g, c.b))]),
        end('a', "solidFill"@),
    ]
}

/// The fill of a shape: its colour, `<a:noFill/>` for a vector shape without one, else
/// nothing.
pub open spec fn shape_fill_events(s: ShapeXmlView) -> Seq<XmlTokenView> {
    match s.fill {
        Some(c) => fill_events(c),
        None => if s.text is None {
            seq![leaf('a', "noFill"@, no_attrs())]
        } else {
            Seq::empty()
        },
    }
}

/// `<p:spPr>`.
pub open spec fn props_events(s: ShapeXmlView) -> Seq<XmlTokenView> {
    seq![start('p', "spPr"@, no_attrs())] + xfrm_events(s.frame, s.rotation) + geom_events(
        s.geometry,
        s.frame,
    ) + shape_fill_events(s) + seq![end('p', "spPr"@)]
}

/// A flag attribute, present when set.
pub open spec fn flag(on: bool, key: Seq<char>, value: Seq<char>) -> Seq<(Seq<u8>, Option<Seq<char>>)> {
    if on {
        seq![attr(key, value)]
    } else {
        no_attrs()
    }
}

/// `<a:r>`: run properties with the run's colour, then its text (an empty text carries no
/// character data).
pub open spec fn run_events(r: RunXmlView) -> Seq<XmlTokenView> {
    seq![
        start('a', "r"@, no_attrs()),
        start('a', "rPr"@, seq![
            attr("lang"@, "en-US"@),
            attr("sz"@, signed_decimal(hundredth_pt(r.size as int))),
        ] + flag(r.bold, "b"@, "1"@) + flag(r.italic, "i"@, "1"@) + flag(r.underline, "u"@, "sng"@)),
    ] + fill_events(r.color) + seq![end('a', "rPr"@), start('a', "t"@, no_attrs())] + (if r.text.len()
        > 0 {
        seq![XmlTokenView::Text(Some(r.text))]
    } else {
        Seq::empty()
    }) + seq![end('a', "t"@), end('a', "r"@)]
}

pub open spec fn runs_events(rs: Seq<RunXmlView>) -> Seq<XmlTokenView>
    decreases rs.len(),
{
    if rs.len() == 0 {
        Seq::empty()
    } else {
        runs_events(rs.drop_last()) + run_events(rs.last())
    }
}

/// `<a:p>`.
pub open spec fn para_events(p: ParaXmlView) -> Seq<XmlTokenView> {
    seq![start('a', "p"@, no_attrs()), leaf('a', "pPr"@, seq![attr("algn"@, align_code(p.align))])]
        + runs_events(p.runs) + seq![end('a', "p"@)]
}

pub open spec fn paras_events(ps: Seq<ParaXmlView>) -> Seq<XmlTokenView>
    decreases ps.len(),
{
    if ps.len() == 0 {
        Seq::empty()
    } else {
        paras_events(ps.drop_last()) + para_events(ps.last())
    }
}

/// `<p:txBody>` of a text box.
pub open spec fn txbody_events(ps: Seq<ParaXmlView>) -> Seq<XmlTokenView> {
    seq![
        start('p', "txBody"@, no_attrs()),
        start('a', "bodyPr"@, seq![attr("wrap"@, "square"@), attr("rtlCol"@, "0"@)]),
        leaf('a', "normAutofit"@, no_attrs()),
        end('a', "bodyPr"@),
        leaf('a', "lstStyle"@, no_attrs()),
    ] + (if ps.len() == 0 {
        seq![leaf('a', "p"@, no_attrs())]
    } else {
        Seq::empty()
    }) + paras_events(ps) + seq![end('p', "txBody"@)]
}

/// The empty `<p:txBody>` of a shape without text.
pub open spec fn empty_body_events() -> Seq<XmlTokenView> {
    seq![
        start('p', "txBody"@, no_attrs()),
        leaf('a', "bodyPr"@, no_attrs()),
        leaf('a', "lstStyle"@, no_attrs()),
        leaf('a', "p"@, no_attrs()),
        end('p', "txBody"@),
    ]
}

pub open spec fn body_events(s: ShapeXmlView) -> Seq<XmlTokenView> {
    match s.text {
        Some(ps) => txbody_events(ps),
        None => empty_body_events(),
    }
}

/// `<p:sp>`.
pub open spec fn sp_events(s: ShapeXmlView) -> Seq<XmlTokenView> {
    seq![start('p', "sp"@, no_attrs())] + nv_events(s) + props_events(s) + body_events(s) + seq![
        end('p', "sp"@),
    ]
}

pub open spec fn shapes_events(ss: Seq<ShapeXmlView>) -> Seq<XmlTokenView>
    decreases ss.len(),
{
    if ss.len() == 0 {
        Seq::empty()
    } else {
        shapes_events(ss.drop_last()) + sp_events(ss.last())
    }
}

// ---------------------------------------------------------------------------------------
// What the reader makes of them

/// Between shapes: no shape open, outside text, no fill open, no failure.
pub open spec fn idle(done: Seq<ParsedShapeView>) -> SlideReadView {
    SlideReadView { shape: None, in_text: false, depth: 0, done, fault: false }
}

/// Inside a shape, between its parts.
pub open spec fn busy(sh: ParsedShapeView, done: Seq<ParsedShapeView>) -> SlideReadView {
    SlideReadView { shape: Some(sh), in_text: false, depth: 0, done, fault: false }
}

/// A name the reader acts on.
pub open spec fn read_name(n: Seq<char>) -> bool {
    ||| n == "sp"@
    ||| n == "t"@
    ||| n == "solidFill"@
    ||| n == "off"@
    ||| n == "ext"@
    ||| n == "xfrm"@
    ||| n == "prstGeom"@
    ||| n == "srgbClr"@
    ||| n == "gd"@
}

/// A name that differs from each name the reader acts on in its length or first character
/// is not one of them.
proof fn lemma_not_read(n: Seq<char>)
    requires
        n.len() > 0,
        n.len() != 2 || n[0] != 's',
        n.len() != 1 || n[0] != 't',
        n.len() != 9 || n[0] != 's',
        n.len() != 3 || n[0] != 'o',
        n.len() != 3 || n[0] != 'e',
        n.len() != 4 || n[0] != 'x',
        n.len() != 8 || n[0] != 'p',
        n.len() != 7 || n[0] != 's',
        n.len() != 2 || n[0] != 'g',
    ensures
        !read_name(n),
{
    reveal_strlit("gd");
    assert(n != "gd"@) by {
        if n == "gd"@ {
            assert(n.len() == 2 && n[0] == 'g');
        }
    }
    reveal_strlit("sp");
    reveal_strlit("t");
    reveal_strlit("solidFill");
    reveal_strlit("off");
    reveal_strlit("ext");
    reveal_strlit("xfrm");
    reveal_strlit("prstGeom");
    reveal_strlit("srgbClr");
    assert(n != "sp"@ && n != "t"@ && n != "solidFill"@ && n != "off"@) by {
        if n == "sp"@ || n == "t"@ || n == "solidFill"@ || n == "off"@ {
            assert(n.len() == 2 && n[0] == 's' || n.len() == 1 && n[0] == 't' || n.len() == 9
                && n[0] == 's' || n.len() == 3 && n[0] == 'o');
        }
    }
    assert(n != "ext"@ && n != "xfrm"@ && n != "prstGeom"@ && n != "srgbClr"@) by {
        if n == "ext"@ || n == "xfrm"@ || n == "prstGeom"@ || n == "srgbClr"@ {
            assert(n.len() == 3 && n[0] == 'e' || n.len() == 4 && n[0] == 'x' || n.len() == 8
                && n[0] == 'p' || n.len() == 7 && n[0] == 's');
        }
    }
}

/// The local names of the events of a written slide, and two prefixes, are plain names;
/// the reader acts on none of the names it does not list.
proof fn lemma_names()
    ensures
        plain_name(seq!['a']),
        plain_name(seq!['p']),
        plain_name("sp"@),
        plain_name("t"@),
        plain_name("solidFill"@),
        plain_name("off"@),
        plain_name("ext"@),
        plain_name("xfrm"@),
        plain_name("prstGeom"@),
        plain_name("srgbClr"@),
        plain_name("nvSpPr"@),
        plain_name("cNvPr"@),
        plain_name("cNvSpPr"@),
        plain_name("nvPr"@),
        plain_name("spPr"@),
        plain_name("avLst"@),
        plain_name("noFill"@),
        plain_name("r"@),
        plain_name("rPr"@),
        plain_name("p"@),
        plain_name("pPr"@),
        plain_name("txBody"@),
        plain_name("bodyPr"@),
        plain_name("normAutofit"@),
        plain_name("lstStyle"@),
        !read_name("nvSpPr"@),
        !read_name("cNvPr"@),
        !read_name("cNvSpPr"@),
        !read_name("nvPr"@),
        !read_name("spPr"@),
        !read_name("avLst"@),
        !read_name("noFill"@),
        !read_name("r"@),
        !read_name("rPr"@),
        !read_name("p"@),
        !read_name("pPr"@),
        !read_name("txBody"@),
        !read_name("bodyPr"@),
        !read_name("normAutofit"@),
        !read_name("lstStyle"@),
{
    reveal_strlit("sp");
    reveal_strlit("t");
    reveal_strlit("solidFill");
    reveal_strlit("off");
    reveal_strlit("ext");
    reveal_strlit("xfrm");
    reveal_strlit("prstGeom");
    reveal_strlit("srgbClr");
    reveal_strlit("nvSpPr");
    reveal_strlit("cNvPr");
    reveal_strlit("cNvSpPr");
    reveal_strlit("nvPr");
    reveal_strlit("spPr");
    reveal_strlit("avLst");
    reveal_strlit("noFill");
    reveal_strlit("r");
    reveal_strlit("rPr");
    reveal_strlit("p");
    reveal_strlit("pPr");
    reveal_strlit("txBody");
    reveal_strlit("bodyPr");
    reveal_strlit("normAutofit");
    reveal_strlit("lstStyle");
    lemma_not_read("nvSpPr"@);
    lemma_not_read("cNvPr"@);
    lemma_not_read("cNvSpPr"@);
    lemma_not_read("nvPr"@);
    lemma_not_read("spPr"@);
    lemma_not_read("avLst"@);
    lemma_not_read("noFill"@);
    lemma_not_read("r"@);
    lemma_not_read("rPr"@);
    lemma_not_read("p"@);
    lemma_not_read("pPr"@);
    lemma_not_read("txBody"@);
    lemma_not_read("bodyPr"@);
    lemma_not_read("normAutofit"@);
    lemma_not_read("lstStyle"@);
}

/// An event the reader passes over whatever its state: an element start, leaf or end whose
/// name it does not act on, or an event that is not markup.
pub open spec fn quiet(t: XmlTokenView) -> bool {
    match t {
        XmlTokenView::Start { name, .. } => !read_name(local_name_spec(name)),
        XmlTokenView::Empty { name, .. } => !read_name(local_name_spec(name)),
        XmlTokenView::End { name } => !read_name(local_name_spec(name)),
        XmlTokenView::Other => true,
        _ => false,
    }
}

proof fn lemma_step_quiet(st: SlideReadView, t: XmlTokenView)
    requires
        quiet(t),
    ensures
        slide_step(st, t) == st,
{
}

proof fn lemma_run_quiet(st: SlideReadView, ts: Seq<XmlTokenView>)
    requires
        forall|i: int| 0 <= i < ts.len() ==> quiet(#[trigger] ts[i]),
    ensures
        run_from(st, ts) == st,
    decreases ts.len(),
{
    if ts.len() > 0 {
        lemma_run_quiet(st, ts.drop_last());
        lemma_step_quiet(st, ts.last());
    }
}

/// Element events named by plain names the reader does not act on are quiet.
proof fn lemma_quiet_names(pfx: char, local: Seq<char>, attrs: Seq<(Seq<u8>, Option<Seq<char>>)>)
    requires
        plain_name(seq![pfx]),
        plain_name(local),
        !read_name(local),
    ensures
        quiet(start(pfx, local, attrs)),
        quiet(leaf(pfx, local, attrs)),
        quiet(end(pfx, local)),
{
    lemma_local_name(pfx, local);
}

proof fn lemma_nv(st: SlideReadView, s: ShapeXmlView)
    ensures
        run_from(st, nv_events(s)) == st,
{
    lemma_names();
    let ts = nv_events(s);
    lemma_quiet_names('p', "nvSpPr"@, no_attrs());
    lemma_quiet_names('p', "cNvPr"@, seq![attr("id"@, decimal(s.id as nat)), attr("name"@, s.name)]);
    lemma_quiet_names('p', "cNvSpPr"@, ts[2]->Empty_attrs);
    lemma_quiet_names('p', "nvPr"@, no_attrs());
    assert forall|i: int| 0 <= i < ts.len() implies quiet(#[trigger] ts[i]) by {}
    lemma_run_quiet(st, ts);
}

proof fn lemma_encode_injective(a: Seq<char>, b: Seq<char>)
    ensures
        encode_utf8(a) == encode_utf8(b) ==> a == b,
{
    vstd::utf8::encode_utf8_decode_utf8(a);
    vstd::utf8::encode_utf8_decode_utf8(b);
}

proof fn lemma_lookup_one(k: Seq<char>, v: Seq<char>)
    ensures
        attr_lookup(seq![attr(k, v)], encode_utf8(k)) == Some(v),
{
    reveal_with_fuel(attr_lookup, 2);
}

proof fn lemma_lookup_two(k1: Seq<char>, v1: Seq<char>, k2: Seq<char>, v2: Seq<char>)
    requires
        k1 != k2,
    ensures
        attr_lookup(seq![attr(k1, v1), attr(k2, v2)], encode_utf8(k1)) == Some(v1),
        attr_lookup(seq![attr(k1, v1), attr(k2, v2)], encode_utf8(k2)) == Some(v2),
{
    lemma_encode_injective(k1, k2);
    let a = seq![attr(k1, v1), attr(k2, v2)];
    assert(a.drop_first() =~= seq![attr(k2, v2)]);
    reveal_with_fuel(attr_lookup, 3);
}

/// The placement after `<a:xfrm>`: offset, extent and any rotation.
pub open spec fn placed(sh: ParsedShapeView, f: RectEmu, rotation: Option<i64>) -> ParsedShapeView {
    ParsedShapeView {
        off: Some((f.origin.x, f.origin.y)),
        ext: Some((extent(f.size.w), extent(f.size.h))),
        rotation: match rotation {
            Some(u) => Some(u),
            None => sh.rotation,
        },
        ..sh
    }
}

proof fn lemma_xfrm(sh: ParsedShapeView, done: Seq<ParsedShapeView>, f: RectEmu, rotation: Option<i64>)
    ensures
        run_from(busy(sh, done), xfrm_events(f, rotation)) == busy(placed(sh, f, rotation), done),
{
    lemma_names();
    lemma_local_name('a', "xfrm"@);
    lemma_local_name('a', "off"@);
    lemma_local_name('a', "ext"@);
    reveal_strlit("xfrm");
    reveal_strlit("off");
    reveal_strlit("ext");
    reveal_strlit("x");
    reveal_strlit("y");
    reveal_strlit("cx");
    reveal_strlit("cy");
    reveal_strlit("rot");
    reveal_strlit("sp");
    reveal_strlit("t");
    reveal_strlit("solidFill");
    reveal_strlit("prstGeom");
    reveal_strlit("srgbClr");
    lemma_signed_decimal_reads_back(f.origin.x);
    lemma_signed_decimal_reads_back(f.origin.y);
    lemma_signed_decimal_reads_back(extent(f.size.w));
    lemma_signed_decimal_reads_back(extent(f.size.h));
    lemma_lookup_two("x"@, signed_decimal(f.origin.x as int), "y"@, signed_decimal(f.origin.y as int));
    assert("ext"@ != "off"@) by {
        if "ext"@ == "off"@ {
            assert("ext"@[0] == "off"@[0]);
        }
    }
    assert("cx"@ != "cy"@) by {
        if "cx"@ == "cy"@ {
            assert("cx"@[1] == "cy"@[1]);
        }
    }
    lemma_lookup_two("cx"@, signed_decimal(extent(f.size.w) as int), "cy"@, signed_decimal(extent(f.size.h) as int));
    let ts = xfrm_events(f, rotation);
    let s0 = busy(sh, done);
    let sh1 = match rotation {
        Some(u) => ParsedShapeView { rotation: Some(u), ..sh },
        None => sh,
    };
    match rotation {
        Some(u) => {
            lemma_signed_decimal_reads_back(u);
            lemma_lookup_one("rot"@, signed_decimal(u as int));
        },
        None => {},
    }
    assert(slide_step(s0, ts[0]) == busy(sh1, done));
    let sh2 = ParsedShapeView { off: Some((f.origin.x, f.origin.y)), ..sh1 };
    assert(slide_step(busy(sh1, done), ts[1]) == busy(sh2, done));
    assert(slide_step(busy(sh2, done), ts[2]) == busy(placed(sh, f, rotation), done));
    assert(slide_step(busy(placed(sh, f, rotation), done), ts[3]) == busy(placed(sh, f, rotation), done));
    reveal_with_fuel(run_from, 5);
    assert(ts.drop_last().drop_last().drop_last().drop_last() =~= Seq::<XmlTokenView>::empty());
}

proof fn lemma_geom(sh: ParsedShapeView, done: Seq<ParsedShapeView>, g: Option<Geometry>, f: Frame)
    requires
        sh.ext == Some((extent(f.size.w), extent(f.size.h))),
    ensures
        run_from(busy(sh, done), geom_events(g, f)) == busy(
            ParsedShapeView { geometry: geom_read(g, f), ..sh },
            done,
        ),
{
    lemma_names();
    lemma_local_name('a', "prstGeom"@);
    lemma_quiet_names('a', "avLst"@, no_attrs());
    reveal_strlit("prstGeom");
    reveal_strlit("prst");
    reveal_strlit("off");
    reveal_strlit("ext");
    reveal_strlit("xfrm");
    reveal_strlit("srgbClr");
    reveal_strlit("sp");
    reveal_strlit("t");
    reveal_strlit("solidFill");
    reveal_strlit("gd");
    lemma_lookup_one("prst"@, preset_name(g));
    let ts = geom_events(g, f);
    let sh1 = ParsedShapeView { geometry: preset_geometry(preset_name(g)), ..sh };
    assert(slide_step(busy(sh, done), ts[0]) == busy(sh1, done));
    match g {
        Some(Geometry::RoundRect { radius }) => {
            reveal_strlit("roundRect");
            reveal_strlit("rect");
            reveal_strlit("name");
            reveal_strlit("fmla");
            reveal_strlit("adj");
            reveal_strlit("val ");
            assert(plain_name("gd"@)) by {
                assert(forall|i: int| 0 <= i < 2 ==> ('a' <= #[trigger] "gd"@[i] <= 'z'));
            }
            lemma_local_name('a', "gd"@);
            let n: nat = adj_of_radius(radius, f) as nat;
            assert(n <= 50000);
            let v = "val "@ + decimal(n);
            assert("name"@ != "fmla"@);
            lemma_lookup_two("name"@, "adj"@, "fmla"@, v);
            lemma_signed_decimal_reads_back(n as i64);
            assert(signed_decimal(n as int) == decimal(n));
            assert(v.take(4) =~= "val "@);
            assert(v.skip(4) =~= decimal(n));
            assert(guide_val(v) == Some(n as i64));
            let attrs = seq![attr("name"@, "adj"@), attr("fmla"@, v)];
            assert(adj_guide(attrs) == Some(n as i64));
            lemma_step_quiet(busy(sh1, done), ts[1]);
            let sh2 = ParsedShapeView { geometry: geom_read(g, f), ..sh };
            assert("name".spec_bytes() == encode_utf8("name"@));
            assert("fmla".spec_bytes() == encode_utf8("fmla"@));
            assert(ts[2] == leaf('a', "gd"@, attrs));
            assert(local_name_spec(qn('a', "gd"@)) == "gd"@);
            assert(preset_name(g) == "roundRect"@);
            assert("roundRect"@.len() != "rect"@.len());
            assert("roundRect"@ != "rect"@);
            assert(preset_geometry("roundRect"@) == Some(Geometry::RoundRect { radius: 0 }));
            assert(sh1.geometry == Some(Geometry::RoundRect { radius: 0 }));
            assert(shape_attrs(sh1, 0, "gd"@, attrs) == (sh2, false));
            assert(slide_step(busy(sh1, done), ts[2]) == busy(sh2, done));
            lemma_step_quiet(busy(sh2, done), ts[3]);
            assert(slide_step(busy(sh2, done), ts[4]) == busy(sh2, done));
            reveal_with_fuel(run_from, 6);
            assert(ts.drop_last().drop_last().drop_last().drop_last().drop_last() =~= Seq::<XmlTokenView>::empty());
        },
        _ => {
            lemma_step_quiet(busy(sh1, done), ts[1]);
            assert(slide_step(busy(sh1, done), ts[2]) == busy(sh1, done));
            reveal_with_fuel(run_from, 4);
            assert(ts.drop_last().drop_last().drop_last() =~= Seq::<XmlTokenView>::empty());
        },
    }
}

/// The fill after a literal colour is read: the first colour read wins, made opaque.
pub open spec fn fill_from(f: Option<Color>, c: Rgba) -> Option<Color> {
    if f is Some {
        f
    } else {
        Some(Color::Literal(Rgba { r: c.r, g: c.g, b: c.b, a: 255 }))
    }
}

proof fn lemma_fill(sh: ParsedShapeView, done: Seq<ParsedShapeView>, c: Rgba)
    ensures
        run_from(busy(sh, done), fill_events(c)) == busy(
            ParsedShapeView { fill: fill_from(sh.fill, c), ..sh },
            done,
        ),
{
    lemma_names();
    lemma_local_name('a', "solidFill"@);
    lemma_local_name('a', "srgbClr"@);
    reveal_strlit("prstGeom");
    reveal_strlit("off");
    reveal_strlit("ext");
    reveal_strlit("xfrm");
    reveal_strlit("srgbClr");
    reveal_strlit("sp");
    reveal_strlit("t");
    reveal_strlit("solidFill");
    reveal_strlit("gd");
    reveal_strlit("val");
    lemma_lookup_one("val"@, hex_rgb_text(c.r, c.g, c.b));
    lemma_hex_rgb_reads_back(c);
    let ts = fill_events(c);
    let s1 = SlideReadView { depth: 1, ..busy(sh, done) };
    assert(slide_step(busy(sh, done), ts[0]) == s1);
    let sh2 = ParsedShapeView { fill: fill_from(sh.fill, c), ..sh };
    let s2 = SlideReadView { depth: 1, ..busy(sh2, done) };
    assert(slide_step(s1, ts[1]) == s2);
    assert(slide_step(s2, ts[2]) == busy(sh2, done));
    reveal_with_fuel(run_from, 4);
    assert(ts.drop_last().drop_last().drop_last() =~= Seq::<XmlTokenView>::empty());
}

proof fn lemma_props(sh: ParsedShapeView, done: Seq<ParsedShapeView>, s: ShapeXmlView)
    ensures
        run_from(busy(sh, done), props_events(s)) == busy(
            {
                let p = ParsedShapeView {
                    geometry: geom_read(s.geometry, s.frame),
                    ..placed(sh, s.frame, s.rotation)
                };
                match s.fill {
                    Some(c) => ParsedShapeView { fill: fill_from(p.fill, c), ..p },
                    None => p,
                }
            },
            done,
        ),
{
    lemma_names();
    lemma_quiet_names('p', "spPr"@, no_attrs());
    lemma_quiet_names('a', "noFill"@, no_attrs());
    let st0 = busy(sh, done);
    let a = seq![start('p', "spPr"@, no_attrs())];
    let x = xfrm_events(s.frame, s.rotation);
    let g = geom_events(s.geometry, s.frame);
    let f = shape_fill_events(s);
    let e = seq![end('p', "spPr"@)];
    assert(props_events(s) == a + x + g + f + e);
    lemma_run_append(st0, a + x + g + f, e);
    lemma_run_append(st0, a + x + g, f);
    lemma_run_append(st0, a + x, g);
    lemma_run_append(st0, a, x);
    reveal_with_fuel(run_from, 2);
    assert(a.drop_last() =~= Seq::<XmlTokenView>::empty());
    assert(e.drop_last() =~= Seq::<XmlTokenView>::empty());
    lemma_step_quiet(st0, a[0]);
    assert(run_from(st0, a) == st0);
    lemma_xfrm(sh, done, s.frame, s.rotation);
    let p1 = placed(sh, s.frame, s.rotation);
    lemma_geom(p1, done, s.geometry, s.frame);
    let p2 = ParsedShapeView { geometry: geom_read(s.geometry, s.frame), ..p1 };
    match s.fill {
        Some(c) => {
            lemma_fill(p2, done, c);
            lemma_step_quiet(busy(ParsedShapeView { fill: fill_from(p2.fill, c), ..p2 }, done), e[0]);
        },
        None => {
            if s.text is None {
                assert(f.drop_last() =~= Seq::<XmlTokenView>::empty());
                lemma_step_quiet(busy(p2, done), f[0]);
            }
            lemma_step_quiet(busy(p2, done), e[0]);
        },
    }
}

/// The texts of a paragraph's runs that are not empty, in order.
pub open spec fn run_texts(rs: Seq<RunXmlView>) -> Seq<Seq<char>>
    decreases rs.len(),
{
    if rs.len() == 0 {
        Seq::empty()
    } else {
        run_texts(rs.drop_last()) + if rs.last().text.len() > 0 {
            seq![rs.last().text]
        } else {
            Seq::empty()
        }
    }
}

/// The texts of the paragraphs' runs that are not empty, in order.
pub open spec fn para_texts(ps: Seq<ParaXmlView>) -> Seq<Seq<char>>
    decreases ps.len(),
{
    if ps.len() == 0 {
        Seq::empty()
    } else {
        para_texts(ps.drop_last()) + run_texts(ps.last().runs)
    }
}

/// The colour of the first run of the paragraphs, if any.
pub open spec fn first_color(ps: Seq<ParaXmlView>) -> Option<Rgba>
    decreases ps.len(),
{
    if ps.len() == 0 {
        None
    } else {
        match first_color(ps.drop_last()) {
            Some(c) => Some(c),
            None => if ps.last().runs.len() > 0 {
                Some(ps.last().runs[0].color)
            } else {
                None
            },
        }
    }
}

/// A fill after an optional literal colour is read.
pub open spec fn fill_with(f: Option<Color>, c: Option<Rgba>) -> Option<Color> {
    match c {
        Some(x) => fill_from(f, x),
        None => f,
    }
}

proof fn lemma_run(sh: ParsedShapeView, done: Seq<ParsedShapeView>, r: RunXmlView)
    ensures
        run_from(busy(sh, done), run_events(r)) == busy(
            ParsedShapeView {
                fill: fill_from(sh.fill, r.color),
                texts: sh.texts + if r.text.len() > 0 {
                    seq![r.text]
                } else {
                    Seq::empty()
                },
                ..sh
            },
            done,
        ),
{
    lemma_names();
    lemma_local_name('a', "t"@);
    reveal_strlit("t");
    reveal_strlit("sp");
    reveal_strlit("solidFill");
    let st0 = busy(sh, done);
    let rpr = seq![
        attr("lang"@, "en-US"@),
        attr("sz"@, signed_decimal(hundredth_pt(r.size as int))),
    ] + flag(r.bold, "b"@, "1"@) + flag(r.italic, "i"@, "1"@) + flag(r.underline, "u"@, "sng"@);
    lemma_quiet_names('a', "r"@, no_attrs());
    lemma_quiet_names('a', "rPr"@, rpr);
    let a = seq![start('a', "r"@, no_attrs()), start('a', "rPr"@, rpr)];
    let f = fill_events(r.color);
    let b = seq![end('a', "rPr"@), start('a', "t"@, no_attrs())];
    let tx: Seq<XmlTokenView> = if r.text.len() > 0 {
        seq![XmlTokenView::Text(Some(r.text))]
    } else {
        Seq::empty()
    };
    let c = seq![end('a', "t"@), end('a', "r"@)];
    assert(run_events(r) == a + f + b + tx + c);
    lemma_run_append(st0, a + f + b + tx, c);
    lemma_run_append(st0, a + f + b, tx);
    lemma_run_append(st0, a + f, b);
    lemma_run_append(st0, a, f);
    reveal_with_fuel(run_from, 3);
    assert(a.drop_last().drop_last() =~= Seq::<XmlTokenView>::empty());
    assert(b.drop_last().drop_last() =~= Seq::<XmlTokenView>::empty());
    assert(c.drop_last().drop_last() =~= Seq::<XmlTokenView>::empty());
    lemma_step_quiet(st0, a[0]);
    lemma_step_quiet(st0, a[1]);
    lemma_fill(sh, done, r.color);
    let sh1 = ParsedShapeView { fill: fill_from(sh.fill, r.color), ..sh };
    let s1 = busy(sh1, done);
    lemma_step_quiet(s1, b[0]);
    let s2 = SlideReadView { in_text: true, ..s1 };
    assert(slide_step(s1, b[1]) == s2);
    let sh3 = ParsedShapeView {
        texts: sh.texts + if r.text.len() > 0 {
            seq![r.text]
        } else {
            Seq::empty()
        },
        ..sh1
    };
    let s3 = SlideReadView { in_text: true, ..busy(sh3, done) };
    if r.text.len() > 0 {
        assert(tx.drop_last() =~= Seq::<XmlTokenView>::empty());
        assert(sh.texts.push(r.text) =~= sh.texts + seq![r.text]);
        assert(slide_step(s2, tx[0]) == s3);
    } else {
        assert(sh.texts + Seq::<Seq<char>>::empty() =~= sh.texts);
    }
    assert(run_from(s2, tx) == s3);
    assert(slide_step(s3, c[0]) == busy(sh3, done));
    lemma_step_quiet(busy(sh3, done), c[1]);
}

/// The first run's colour, if there is a run.
pub open spec fn first_run_color(rs: Seq<RunXmlView>) -> Option<Rgba> {
    if rs.len() > 0 {
        Some(rs[0].color)
    } else {
        None
    }
}

proof fn lemma_runs(sh: ParsedShapeView, done: Seq<ParsedShapeView>, rs: Seq<RunXmlView>)
    ensures
        run_from(busy(sh, done), runs_events(rs)) == busy(
            ParsedShapeView {
                fill: fill_with(sh.fill, first_run_color(rs)),
                texts: sh.texts + run_texts(rs),
                ..sh
            },
            done,
        ),
    decreases rs.len(),
{
    if rs.len() == 0 {
        assert(sh.texts + run_texts(rs) =~= sh.texts);
    } else {
        let dl = rs.drop_last();
        lemma_runs(sh, done, dl);
        lemma_run_append(busy(sh, done), runs_events(dl), run_events(rs.last()));
        let sh1 = ParsedShapeView {
            fill: fill_with(sh.fill, first_run_color(dl)),
            texts: sh.texts + run_texts(dl),
            ..sh
        };
        lemma_run(sh1, done, rs.last());
        if dl.len() > 0 {
            assert(dl[0] == rs[0]);
        }
        assert(sh1.texts + (if rs.last().text.len() > 0 {
            seq![rs.last().text]
        } else {
            Seq::<Seq<char>>::empty()
        }) =~= sh.texts + run_texts(rs));
    }
}

proof fn lemma_paras(sh: ParsedShapeView, done: Seq<ParsedShapeView>, ps: Seq<ParaXmlView>)
    ensures
        run_from(busy(sh, done), paras_events(ps)) == busy(
            ParsedShapeView {
                fill: fill_with(sh.fill, first_color(ps)),
                texts: sh.texts + para_texts(ps),
                ..sh
            },
            done,
        ),
    decreases ps.len(),
{
    lemma_names();
    if ps.len() == 0 {
        assert(sh.texts + para_texts(ps) =~= sh.texts);
    } else {
        let dl = ps.drop_last();
        let p = ps.last();
        lemma_paras(sh, done, dl);
        lemma_run_append(busy(sh, done), paras_events(dl), para_events(p));
        let sh1 = ParsedShapeView {
            fill: fill_with(sh.fill, first_color(dl)),
            texts: sh.texts + para_texts(dl),
            ..sh
        };
        let st1 = busy(sh1, done);
        let a = seq![start('a', "p"@, no_attrs()), leaf('a', "pPr"@, seq![attr("algn"@, align_code(p.align))])];
        let e = seq![end('a', "p"@)];
        assert(para_events(p) == a + runs_events(p.runs) + e);
        lemma_quiet_names('a', "p"@, no_attrs());
        lemma_quiet_names('a', "pPr"@, a[1]->Empty_attrs);
        assert forall|i: int| 0 <= i < a.len() implies quiet(#[trigger] a[i]) by {}
        lemma_run_quiet(st1, a);
        lemma_run_append(st1, a + runs_events(p.runs), e);
        lemma_run_append(st1, a, runs_events(p.runs));
        lemma_runs(sh1, done, p.runs);
        let sh2 = ParsedShapeView {
            fill: fill_with(sh1.fill, first_run_color(p.runs)),
            texts: sh1.texts + run_texts(p.runs),
            ..sh1
        };
        assert forall|i: int| 0 <= i < e.len() implies quiet(#[trigger] e[i]) by {}
        lemma_run_quiet(busy(sh2, done), e);
        assert(sh1.texts + run_texts(p.runs) =~= sh.texts + para_texts(ps));
        assert(sh2.fill == fill_with(sh.fill, first_color(ps)));
    }
}

proof fn lemma_body(sh: ParsedShapeView, done: Seq<ParsedShapeView>, s: ShapeXmlView)
    ensures
        run_from(busy(sh, done), body_events(s)) == busy(
            match s.text {
                Some(ps) => ParsedShapeView {
                    fill: fill_with(sh.fill, first_color(ps)),
                    texts: sh.texts + para_texts(ps),
                    ..sh
                },
                None => sh,
            },
            done,
        ),
{
    lemma_names();
    let st0 = busy(sh, done);
    lemma_quiet_names('p', "txBody"@, no_attrs());
    lemma_quiet_names('a', "bodyPr"@, no_attrs());
    lemma_quiet_names('a', "bodyPr"@, seq![attr("wrap"@, "square"@), attr("rtlCol"@, "0"@)]);
    lemma_quiet_names('a', "normAutofit"@, no_attrs());
    lemma_quiet_names('a', "lstStyle"@, no_attrs());
    lemma_quiet_names('a', "p"@, no_attrs());
    match s.text {
        Some(ps) => {
            let a = seq![
                start('p', "txBody"@, no_attrs()),
                start('a', "bodyPr"@, seq![attr("wrap"@, "square"@), attr("rtlCol"@, "0"@)]),
                leaf('a', "normAutofit"@, no_attrs()),
                end('a', "bodyPr"@),
                leaf('a', "lstStyle"@, no_attrs()),
            ];
            let b: Seq<XmlTokenView> = if ps.len() == 0 {
                seq![leaf('a', "p"@, no_attrs())]
            } else {
                Seq::empty()
            };
            let e = seq![end('p', "txBody"@)];
            assert(body_events(s) == a + b + paras_events(ps) + e);
            assert forall|i: int| 0 <= i < (a + b).len() implies quiet(#[trigger] (a + b)[i]) by {
                if i >= a.len() {
                    assert((a + b)[i] == b[i - a.len()]);
                }
            }
            lemma_run_quiet(st0, a + b);
            lemma_run_append(st0, a + b + paras_events(ps), e);
            lemma_run_append(st0, a + b, paras_events(ps));
            lemma_paras(sh, done, ps);
            let sh1 = ParsedShapeView {
                fill: fill_with(sh.fill, first_color(ps)),
                texts: sh.texts + para_texts(ps),
                ..sh
            };
            assert forall|i: int| 0 <= i < e.len() implies quiet(#[trigger] e[i]) by {}
            lemma_run_quiet(busy(sh1, done), e);
        },
        None => {
            let ts = empty_body_events();
            assert forall|i: int| 0 <= i < ts.len() implies quiet(#[trigger] ts[i]) by {}
            lemma_run_quiet(st0, ts);
        },
    }
}

/// A literal colour as the reader gives it back: opaque.
pub open spec fn opaque(c: Rgba) -> Color {
    Color::Literal(Rgba { r: c.r, g: c.g, b: c.b, a: 255 })
}

/// What the reader makes of a written shape: its offset and extent (a negative size reads
/// back as zero), its rotation, the geometry its preset names (a rounded rectangle loses its
/// radius and a line is not read back), its fill colour (for a text box without one, the
/// colour of its first run), made opaque, and the texts of its runs that are not empty.
pub open spec fn shape_read(s: ShapeXmlView) -> ParsedShapeView {
    let text_color = match s.text {
        Some(ps) => first_color(ps),
        None => None,
    };
    ParsedShapeView {
        off: Some((s.frame.origin.x, s.frame.origin.y)),
        ext: Some((extent(s.frame.size.w), extent(s.frame.size.h))),
        rotation: s.rotation,
        geometry: geom_read(s.geometry, s.frame),
        fill: match s.fill {
            Some(c) => Some(opaque(c)),
            None => match text_color {
                Some(c) => Some(opaque(c)),
                None => None,
            },
        },
        texts: match s.text {
            Some(ps) => para_texts(ps),
            None => Seq::empty(),
        },
    }
}

proof fn lemma_sp(done: Seq<ParsedShapeView>, s: ShapeXmlView)
    ensures
        run_from(idle(done), sp_events(s)) == idle(done.push(shape_read(s))),
{
    lemma_names();
    lemma_local_name('p', "sp"@);
    reveal_strlit("sp");
    reveal_strlit("t");
    reveal_strlit("solidFill");
    let a = seq![start('p', "sp"@, no_attrs())];
    let e = seq![end('p', "sp"@)];
    let st0 = idle(done);
    assert(sp_events(s) == a + nv_events(s) + props_events(s) + body_events(s) + e);
    lemma_run_append(st0, a + nv_events(s) + props_events(s) + body_events(s), e);
    lemma_run_append(st0, a + nv_events(s) + props_events(s), body_events(s));
    lemma_run_append(st0, a + nv_events(s), props_events(s));
    lemma_run_append(st0, a, nv_events(s));
    reveal_with_fuel(run_from, 2);
    assert(a.drop_last() =~= Seq::<XmlTokenView>::empty());
    assert(e.drop_last() =~= Seq::<XmlTokenView>::empty());
    let st1 = busy(fresh_shape(), done);
    assert(run_from(st0, a) == st1);
    lemma_nv(st1, s);
    lemma_props(fresh_shape(), done, s);
    let p = ParsedShapeView {
        geometry: geom_read(s.geometry, s.frame),
        ..placed(fresh_shape(), s.frame, s.rotation)
    };
    let p2 = match s.fill {
        Some(c) => ParsedShapeView { fill: fill_from(p.fill, c), ..p },
        None => p,
    };
    lemma_body(p2, done, s);
    let p3 = match s.text {
        Some(ps) => ParsedShapeView {
            fill: fill_with(p2.fill, first_color(ps)),
            texts: p2.texts + para_texts(ps),
            ..p2
        },
        None => p2,
    };
    assert(p3.texts =~= shape_read(s).texts);
    assert(p3 == shape_read(s));
    assert(slide_step(busy(p3, done), e[0]) == idle(done.push(p3)));
}

proof fn lemma_shapes(done: Seq<ParsedShapeView>, ss: Seq<ShapeXmlView>)
    ensures
        run_from(idle(done), shapes_events(ss)) == idle(done + ss.map_values(|s: ShapeXmlView| shape_read(s))),
    decreases ss.len(),
{
    if ss.len() == 0 {
        assert(done + ss.map_values(|s: ShapeXmlView| shape_read(s)) =~= done);
    } else {
        lemma_shapes(done, ss.drop_last());
        lemma_run_append(idle(done), shapes_events(ss.drop_last()), sp_events(ss.last()));
        lemma_sp(done + ss.drop_last().map_values(|s: ShapeXmlView| shape_read(s)), ss.last());
        assert((done + ss.drop_last().map_values(|s: ShapeXmlView| shape_read(s))).push(shape_read(ss.last()))
            =~= done + ss.map_values(|s: ShapeXmlView| shape_read(s)));
    }
}

/// No event of `ts` ends the reading.
pub open spec fn markup(ts: Seq<XmlTokenView>) -> bool {
    forall|i: int| 0 <= i < ts.len() ==> !is_stop(#[trigger] ts[i])
}

proof fn lemma_markup_concat(a: Seq<XmlTokenView>, b: Seq<XmlTokenView>)
    requires
        markup(a),
        markup(b),
    ensures
        markup(a + b),
{
    assert forall|i: int| 0 <= i < (a + b).len() implies !is_stop(#[trigger] (a + b)[i]) by {
        if i >= a.len() {
            assert((a + b)[i] == b[i - a.len()]);
        }
    }
}

proof fn lemma_runs_markup(rs: Seq<RunXmlView>)
    ensures
        markup(runs_events(rs)),
    decreases rs.len(),
{
    if rs.len() > 0 {
        lemma_runs_markup(rs.drop_last());
        let r = rs.last();
        let a = seq![
            start('a', "r"@, no_attrs()),
            start('a', "rPr"@, seq![
                attr("lang"@, "en-US"@),
                attr("sz"@, signed_decimal(hundredth_pt(r.size as int))),
            ] + flag(r.bold, "b"@, "1"@) + flag(r.italic, "i"@, "1"@) + flag(r.underline, "u"@, "sng"@)),
        ];
        let f = fill_events(r.color);
        let b = seq![end('a', "rPr"@), start('a', "t"@, no_attrs())];
        let tx: Seq<XmlTokenView> = if r.text.len() > 0 {
            seq![XmlTokenView::Text(Some(r.text))]
        } else {
            Seq::empty()
        };
        let c = seq![end('a', "t"@), end('a', "r"@)];
        assert(markup(a) && markup(f) && markup(b) && markup(tx) && markup(c));
        lemma_markup_concat(a, f);
        lemma_markup_concat(a + f, b);
        lemma_markup_concat(a + f + b, tx);
        lemma_markup_concat(a + f + b + tx, c);
        assert(run_events(r) == a + f + b + tx + c);
        lemma_markup_concat(runs_events(rs.drop_last()), run_events(r));
    }
}

proof fn lemma_paras_markup(ps: Seq<ParaXmlView>)
    ensures
        markup(paras_events(ps)),
    decreases ps.len(),
{
    if ps.len() > 0 {
        lemma_paras_markup(ps.drop_last());
        let p = ps.last();
        let a = seq![start('a', "p"@, no_attrs()), leaf('a', "pPr"@, seq![attr("algn"@, align_code(p.align))])];
        let e = seq![end('a', "p"@)];
        assert(markup(a) && markup(e));
        lemma_runs_markup(p.runs);
        lemma_markup_concat(a, runs_events(p.runs));
        lemma_markup_concat(a + runs_events(p.runs), e);
        assert(para_events(p) == a + runs_events(p.runs) + e);
        lemma_markup_concat(paras_events(ps.drop_last()), para_events(p));
    }
}

proof fn lemma_geom_markup(g: Option<Geometry>, f: Frame)
    ensures
        markup(geom_events(g, f)),
{
    let ts = geom_events(g, f);
    assert forall|i: int| 0 <= i < ts.len() implies !is_stop(#[trigger] ts[i]) by {
        match g {
            Some(Geometry::RoundRect { .. }) => {
                assert(0 <= i < 5);
            },
            _ => {
                assert(0 <= i < 3);
            },
        }
    }
}

proof fn lemma_sp_markup(s: ShapeXmlView)
    ensures
        markup(sp_events(s)),
{
    let a = seq![start('p', "sp"@, no_attrs())];
    let e = seq![end('p', "sp"@)];
    assert(markup(a) && markup(e) && markup(nv_events(s)));
    let pa = seq![start('p', "spPr"@, no_attrs())];
    let pe = seq![end('p', "spPr"@)];
    lemma_geom_markup(s.geometry, s.frame);
    assert(markup(pa) && markup(pe) && markup(xfrm_events(s.frame, s.rotation)) && markup(
        geom_events(s.geometry, s.frame),
    ) && markup(shape_fill_events(s)));
    lemma_markup_concat(pa, xfrm_events(s.frame, s.rotation));
    lemma_markup_concat(pa + xfrm_events(s.frame, s.rotation), geom_events(s.geometry, s.frame));
    lemma_markup_concat(
        pa + xfrm_events(s.frame, s.rotation) + geom_events(s.geometry, s.frame),
        shape_fill_events(s),
    );
    lemma_markup_concat(
        pa + xfrm_events(s.frame, s.rotation) + geom_events(s.geometry, s.frame) + shape_fill_events(s),
        pe,
    );
    match s.text {
        Some(ps) => {
            let ba = seq![
                start('p', "txBody"@, no_attrs()),
                start('a', "bodyPr"@, seq![attr("wrap"@, "square"@), attr("rtlCol"@, "0"@)]),
                leaf('a', "normAutofit"@, no_attrs()),
                end('a', "bodyPr"@),
                leaf('a', "lstStyle"@, no_attrs()),
            ];
            let bb: Seq<XmlTokenView> = if ps.len() == 0 {
                seq![leaf('a', "p"@, no_attrs())]
            } else {
                Seq::empty()
            };
            let be = seq![end('p', "txBody"@)];
            assert(markup(ba) && markup(bb) && markup(be));
            lemma_paras_markup(ps);
            lemma_markup_concat(ba, bb);
            lemma_markup_concat(ba + bb, paras_events(ps));
            lemma_markup_concat(ba + bb + paras_events(ps), be);
            assert(body_events(s) == ba + bb + paras_events(ps) + be);
        },
        None => {
            assert(markup(empty_body_events()));
        },
    }
    lemma_markup_concat(a, nv_events(s));
    lemma_markup_concat(a + nv_events(s), props_events(s));
    lemma_markup_concat(a + nv_events(s) + props_events(s), body_events(s));
    lemma_markup_concat(a + nv_events(s) + props_events(s) + body_events(s), e);
}

proof fn lemma_shapes_markup(ss: Seq<ShapeXmlView>)
    ensures
        markup(shapes_events(ss)),
    decreases ss.len(),
{
    if ss.len() > 0 {
        lemma_shapes_markup(ss.drop_last());
        lemma_sp_markup(ss.last());
        lemma_markup_concat(shapes_events(ss.drop_last()), sp_events(ss.last()));
    }
}

proof fn lemma_stop_at_end(ts: Seq<XmlTokenView>, i: int)
    requires
        ts.len() > 0,
        0 <= i < ts.len(),
        markup(ts.drop_last()),
        is_stop(ts.last()),
    ensures
        first_stop(ts, i) == ts.len() - 1,
    decreases ts.len() - i,
{
    if i < ts.len() - 1 {
        assert(ts.drop_last()[i] == ts[i]);
        lemma_stop_at_end(ts, i + 1);
    }
}

/// What a written slide part reads back as: for the events of the shapes the exporter
/// writes, between any opening and closing events the reader passes over (the part's
/// header and trailer) and followed by the end of the document, the reader finishes one
/// shape per written shape, in order, each as `shape_read` says, and does not fail.
pub proof fn law_written_slide_reads_back(
    head: Seq<XmlTokenView>,
    ss: Seq<ShapeXmlView>,
    tail: Seq<XmlTokenView>,
)
    requires
        forall|i: int| 0 <= i < head.len() ==> quiet(#[trigger] head[i]),
        forall|i: int| 0 <= i < tail.len() ==> quiet(#[trigger] tail[i]),
    ensures
        read_slide_spec(head + shapes_events(ss) + tail + seq![XmlTokenView::Eof]) == idle(
            ss.map_values(|s: ShapeXmlView| shape_read(s)),
        ),
{
    let body = head + shapes_events(ss) + tail;
    let ts = body + seq![XmlTokenView::Eof];
    lemma_shapes_markup(ss);
    assert(markup(head));
    assert(markup(tail));
    lemma_markup_concat(head, shapes_events(ss));
    lemma_markup_concat(head + shapes_events(ss), tail);
    assert(ts.drop_last() =~= body);
    lemma_stop_at_end(ts, 0);
    lemma_fold_is_run(ts, body.len() as int);
    assert(ts.take(body.len() as int) =~= body);
    lemma_run_append(initial_read(), head + shapes_events(ss), tail);
    lemma_run_append(initial_read(), head, shapes_events(ss));
    lemma_run_quiet(initial_read(), head);
    assert(initial_read() == idle(Seq::empty()));
    lemma_shapes(Seq::empty(), ss);
    assert(Seq::<ParsedShapeView>::empty() + ss.map_values(|s: ShapeXmlView| shape_read(s)) =~= ss.map_values(
        |s: ShapeXmlView| shape_read(s),
    ));
    lemma_run_quiet(idle(ss.map_values(|s: ShapeXmlView| shape_read(s))), tail);
}

} // verus!
