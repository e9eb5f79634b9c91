//! Reading the parts of a PPTX package: element names, attribute values, numbers and
//! colours as the importer reads them, and the path rules of package relationships.

use crate::color::{Color, Rgba};
use crate::geom::SizeEmu;
use crate::commands::{hex_byte, hex_pair};
use crate::paths::{lemma_trimmed, trim_bounds, trimmed};
use crate::shape::Geometry;
use crate::strings::{lossy_decode, push_char, str_eq, utf8_lossy};
use crate::textnav::char_vec;
use vstd::prelude::*;
use vstd::string::StringSliceAdditionalSpecFns;

verus! {

/// An XML token as plain values: element starts with their name and attributes (key, and
/// the unescaped value, `None` when it does not unescape), ends, text (unescaped, `None` when
/// it does not unescape), anything else, the end of input, or a syntax error.
pub enum XmlToken {
    Start { name: Vec<u8>, attrs: Vec<(Vec<u8>, Option<String>)> },
    Empty { name: Vec<u8>, attrs: Vec<(Vec<u8>, Option<String>)> },
    End { name: Vec<u8> },
    Text(Option<String>),
    Other,
    Eof,
    Failed,
}

pub enum XmlTokenView {
    Start { name: Seq<u8>, attrs: Seq<(Seq<u8>, Option<Seq<char>>)> },
    Empty { name: Seq<u8>, attrs: Seq<(Seq<u8>, Option<Seq<char>>)> },
    End { name: Seq<u8> },
    Text(Option<Seq<char>>),
    Other,
    Eof,
    Failed,
}

pub open spec fn attr_view(a: (Vec<u8>, Option<String>)) -> (Seq<u8>, Option<Seq<char>>) {
    (
        a.0@,
        match a.1 {
            Some(v) => Some(v@),
            None => None,
        },
    )
}

pub open spec fn attrs_view(attrs: Seq<(Vec<u8>, Option<String>)>) -> Seq<(Seq<u8>, Option<Seq<char>>)> {
    attrs.map_values(|a: (Vec<u8>, Option<String>)| attr_view(a))
}

impl View for XmlToken {
    type V = XmlTokenView;

    open spec fn view(&self) -> XmlTokenView {
        match self {
            XmlToken::Start { name, attrs } => XmlTokenView::Start {
                name: name@,
                attrs: attrs_view(attrs@),
            },
            XmlToken::Empty { name, attrs } => XmlTokenView::Empty {
                name: name@,
                attrs: attrs_view(attrs@),
            },
            XmlToken::End { name } => XmlTokenView::End { name: name@ },
            XmlToken::Text(t) => XmlTokenView::Text(
                match t {
                    Some(s) => Some(s@),
                    None => None,
                },
            ),
            XmlToken::Other => XmlTokenView::Other,
            XmlToken::Eof => XmlTokenView::Eof,
            XmlToken::Failed => XmlTokenView::Failed,
        }
    }
}

pub open spec fn tokens_view(ts: Seq<XmlToken>) -> Seq<XmlTokenView> {
    ts.map_values(|t: XmlToken| t@)
}

// ---------------------------------------------------------------------------------------
// Names and attributes

/// Index of the last `:` among the first `n` bytes, or -1.
pub open spec fn last_colon_before(b: Seq<u8>, n: int) -> int
    decreases n,
{
    if n <= 0 {
        -1
    } else if b[n - 1] == 58 {
        n - 1
    } else {
        last_colon_before(b, n - 1)
    }
}

/// The local name of a qualified element name: the text after its last `:` (the namespace
/// prefix dropped), decoded as `String::from_utf8_lossy` decodes it.
pub open spec fn local_name_spec(qname: Seq<u8>) -> Seq<char> {
    lossy_decode(qname.skip(last_colon_before(qname, qname.len() as int) + 1))
}

/// The local name of an XML element, dropping any namespace prefix (`p:sp` -> `sp`).
pub fn local_name(qname: &[u8]) -> (s: String)
    ensures
        s@ == local_name_spec(qname@),
{
    let mut n = qname.len();
    while n > 0 && qname[n - 1] != 58
        invariant
            n <= qname@.len(),
            last_colon_before(qname@, qname@.len() as int) == last_colon_before(qname@, n as int),
        decreases n,
    {
        n = n - 1;
    }
    let start = n;
    let mut rest: Vec<u8> = Vec::new();
    let mut i = start;
    while i < qname.len()
        invariant
            start <= i <= qname@.len(),
            rest@ == qname@.subrange(start as int, i as int),
        decreases qname@.len() - i,
    {
        rest.push(qname[i]);
        i = i + 1;
        assert(rest@ =~= qname@.subrange(start as int, i as int));
    }
    assert(rest@ =~= qname@.skip(start as int));
    utf8_lossy(rest.as_slice())
}

/// The value of the first attribute whose key is `key`: `None` when there is none, or when
/// its value does not unescape.
pub open spec fn attr_lookup(attrs: Seq<(Seq<u8>, Option<Seq<char>>)>, key: Seq<u8>) -> Option<
    Seq<char>,
>
    decreases attrs.len(),
{
    if attrs.len() == 0 {
        None
    } else if attrs[0].0 == key {
        attrs[0].1
    } else {
        attr_lookup(attrs.drop_first(), key)
    }
}

fn bytes_eq(a: &Vec<u8>, b: &[u8]) -> (r: bool)
    ensures
        r == (a@ == b@),
{
    if a.len() != b.len() {
        return false;
    }
    let mut i: usize = 0;
    while i < a.len()
        invariant
            a.len() == b.len(),
            i <= a.len(),
            forall|j: int| 0 <= j < i ==> a@[j] == b@[j],
        decreases a.len() - i,
    {
        if a[i] != b[i] {
            return false;
        }
        i = i + 1;
    }
    assert(a@ =~= b@);
    true
}

/// Read an attribute value, matched by its full (possibly prefixed) key.
pub fn attr_str(attrs: &Vec<(Vec<u8>, Option<String>)>, key: &str) -> (v: Option<String>)
    ensures
        match v {
            Some(s) => attr_lookup(attrs_view(attrs@), key.spec_bytes()) == Some(s@),
            None => attr_lookup(attrs_view(attrs@), key.spec_bytes()) is None,
        },
{
    let kb = key.as_bytes();
    let ghost av = attrs_view(attrs@);
    let mut i: usize = 0;
    assert(av.skip(0) =~= av);
    while i < attrs.len()
        invariant
            i <= attrs@.len(),
            av == attrs_view(attrs@),
            kb@ == key.spec_bytes(),
            attr_lookup(av, kb@) == attr_lookup(av.skip(i as int), kb@),
        decreases attrs@.len() - i,
    {
        assert(av.skip(i as int).drop_first() =~= av.skip(i + 1));
        if bytes_eq(&attrs[i].0, kb) {
            return match &attrs[i].1 {
                Some(s) => Some(s.clone()),
                None => None,
            };
        }
        i = i + 1;
    }
    None
}

// ---------------------------------------------------------------------------------------
// Numbers

/// `c` is an ASCII digit.
pub open spec fn is_digit(c: char) -> bool {
    '0' <= c && c <= '9'
}

/// The number the digits `ds` spell.
pub open spec fn digits_value(ds: Seq<char>) -> int
    decreases ds.len(),
{
    if ds.len() == 0 {
        0
    } else {
        digits_value(ds.drop_last()) * 10 + (ds.last() as int - 48)
    }
}

/// What `str::parse::<i64>` gives: an optional sign, then one or more ASCII digits, whose
/// value fits.
pub open spec fn parse_i64_spec(cs: Seq<char>) -> Option<i64> {
    let ds = unsigned_part(cs);
    if ds.len() == 0 || !all_digits(ds) {
        None
    } else {
        let v = if negative(cs) {
            -digits_value(ds)
        } else {
            digits_value(ds)
        };
        if i64::MIN <= v <= i64::MAX {
            Some(v as i64)
        } else {
            None
        }
    }
}

/// `cs` starts with a minus sign.
pub open spec fn negative(cs: Seq<char>) -> bool {
    cs.len() > 0 && cs[0] == '-'
}

/// `cs` without its leading sign, if it has one.
pub open spec fn unsigned_part(cs: Seq<char>) -> Seq<char> {
    if cs.len() > 0 && (cs[0] == '-' || cs[0] == '+') {
        cs.skip(1)
    } else {
        cs
    }
}

pub open spec fn all_digits(ds: Seq<char>) -> bool {
    forall|i: int| 0 <= i < ds.len() ==> is_digit(#[trigger] ds[i])
}

proof fn lemma_digits_value_mono(ds: Seq<char>, j: int, k: int)
    requires
        0 <= j <= k <= ds.len(),
        forall|i: int| 0 <= i < ds.len() ==> is_digit(#[trigger] ds[i]),
    ensures
        0 <= digits_value(ds.take(j)) <= digits_value(ds.take(k)),
    decreases k - j,
{
    if j < k {
        lemma_digits_value_mono(ds, j, k - 1);
        assert(ds.take(k).drop_last() =~= ds.take(k - 1));
    } else {
        lemma_digits_value_nonneg(ds.take(j));
    }
}

proof fn lemma_digits_value_nonneg(ds: Seq<char>)
    requires
        forall|i: int| 0 <= i < ds.len() ==> is_digit(#[trigger] ds[i]),
    ensures
        0 <= digits_value(ds),
    decreases ds.len(),
{
    if ds.len() > 0 {
        lemma_digits_value_nonneg(ds.drop_last());
    }
}

/// Parse `cs[from..to]` as `str::parse::<i64>` does.
fn parse_i64_range(cs: &Vec<char>, from: usize, to: usize) -> (r: Option<i64>)
    requires
        from <= to <= cs.len(),
    ensures
        r == parse_i64_spec(cs@.subrange(from as int, to as int)),
{
    let ghost t = cs@.subrange(from as int, to as int);
    let neg = from < to && cs[from] == '-';
    let signed = from < to && (cs[from] == '-' || cs[from] == '+');
    let start = if signed {
        from + 1
    } else {
        from
    };
    let ghost ds = cs@.subrange(start as int, to as int);
    assert(from < to ==> t[0] == cs@[from as int]);
    assert(neg == negative(t));
    assert(ds =~= unsigned_part(t));
    if start == to {
        return None;
    }
    let mut i = start;
    while i < to
        invariant
            start <= i <= to <= cs.len(),
            ds == cs@.subrange(start as int, to as int),
            t == cs@.subrange(from as int, to as int),
            ds == unsigned_part(t),
            ds.len() > 0,
            forall|j: int| 0 <= j < i - start ==> is_digit(#[trigger] ds[j]),
        decreases to - i,
    {
        if !('0' <= cs[i] && cs[i] <= '9') {
            assert(!is_digit(ds[i - start]));
            assert(!all_digits(ds));
            return None;
        }
        i = i + 1;
    }
    let mut mag: u64 = 0;
    let mut k = start;
    while k < to
        invariant
            start <= k <= to <= cs.len(),
            ds == cs@.subrange(start as int, to as int),
            t == cs@.subrange(from as int, to as int),
            ds == unsigned_part(t),
            neg == negative(t),
            ds.len() > 0,
            forall|j: int| 0 <= j < ds.len() ==> is_digit(#[trigger] ds[j]),
            mag == digits_value(ds.take(k - start)),
        decreases to - k,
    {
        assert(ds[k - start] == cs@[k as int]);
        assert(is_digit(ds[k - start]));
        let d = (cs[k] as u32 - 48) as u64;
        assert(ds.take(k - start + 1).drop_last() =~= ds.take(k - start));
        assert(ds.take(k - start + 1).last() == cs@[k as int]);
        proof {
            lemma_digits_value_mono(ds, k - start + 1, ds.len() as int);
            assert(ds.take(ds.len() as int) =~= ds);
        }
        if mag > (u64::MAX - d) / 10 {
            assert(digits_value(ds) > u64::MAX) by (nonlinear_arith)
                requires
                    digits_value(ds.take(k - start + 1)) == mag * 10 + d,
                    digits_value(ds.take(k - start + 1)) <= digits_value(ds),
                    mag > (u64::MAX - d) / 10,
                    d <= 9,
            ;
            assert(all_digits(ds));
            assert(ds.len() > 0);
            assert(-digits_value(ds) < i64::MIN && digits_value(ds) > i64::MAX);
            return None;
        }
        assert(mag * 10 + d <= u64::MAX) by (nonlinear_arith)
            requires
                mag <= (u64::MAX - d) / 10,
                d <= 9,
        ;
        mag = mag * 10 + d;
        k = k + 1;
    }
    assert(ds.take(ds.len() as int) =~= ds);
    if neg {
        if mag > 9_223_372_036_854_775_808u64 {
            None
        } else if mag == 9_223_372_036_854_775_808u64 {
            Some(i64::MIN)
        } else {
            Some(-(mag as i64))
        }
    } else {
        if mag > 9_223_372_036_854_775_807u64 {
            None
        } else {
            Some(mag as i64)
        }
    }
}

/// `str::trim` then `str::parse::<i64>` of `s`: the number in the trimmed text, if it is one.
pub fn trimmed_i64(s: &str) -> (r: Option<i64>)
    ensures
        r == parse_i64_spec(trimmed(s@)),
{
    let cs = char_vec(s);
    let (a, b) = trim_bounds(&cs, 0, cs.len());
    assert(cs@.subrange(0, cs@.len() as int) =~= s@);
    let r = parse_i64_range(&cs, a, b);
    proof {
        lemma_trimmed(s@, a as int, b as int);
    }
    r
}

/// The number an attribute value holds, trimmed then parsed as an `i64`.
pub open spec fn attr_num(attrs: Seq<(Seq<u8>, Option<Seq<char>>)>, key: Seq<u8>) -> Option<i64> {
    match attr_lookup(attrs, key) {
        Some(v) => parse_i64_spec(trimmed(v)),
        None => None,
    }
}

/// Read an attribute value as an `i64` (EMU or rotation units): trimmed, then parsed.
pub fn attr_i64(attrs: &Vec<(Vec<u8>, Option<String>)>, key: &str) -> (r: Option<i64>)
    ensures
        r == attr_num(attrs_view(attrs@), key.spec_bytes()),
{
    match attr_str(attrs, key) {
        Some(s) => trimmed_i64(s.as_str()),
        None => None,
    }
}

// ---------------------------------------------------------------------------------------
// Colours and presets

/// A six-hex-digit `RRGGBB` colour read from the trimmed text; `None` unless the trimmed text
/// is exactly six ASCII hex digits.
pub open spec fn parse_hex_rgb_spec(t: Seq<char>) -> Option<Rgba> {
    let b = vstd::utf8::encode_utf8(t);
    if b.len() != 6 {
        None
    } else {
        match (hex_pair(b[0], b[1]), hex_pair(b[2], b[3]), hex_pair(b[4], b[5])) {
            (Some(r), Some(g), Some(bl)) => Some(Rgba { r, g, b: bl, a: 255 }),
            _ => None,
        }
    }
}

fn collect_range(cs: &Vec<char>, a: usize, b: usize) -> (s: String)
    requires
        a <= b <= cs.len(),
    ensures
        s@ == cs@.subrange(a as int, b as int),
{
    let mut s = String::new();
    let mut i = a;
    while i < b
        invariant
            a <= i <= b <= cs.len(),
            s@ == cs@.subrange(a as int, i as int),
        decreases b - i,
    {
        push_char(&mut s, cs[i]);
        i = i + 1;
        assert(s@ =~= cs@.subrange(a as int, i as int));
    }
    s
}

/// Parse a 6-hex-digit `RRGGBB` colour string (surrounding white space ignored) into an
/// opaque `Rgba`.
pub fn parse_hex_rgb(s: &str) -> (c: Option<Rgba>)
    ensures
        c == parse_hex_rgb_spec(trimmed(s@)),
{
    let cs = char_vec(s);
    let (a, b) = trim_bounds(&cs, 0, cs.len());
    assert(cs@.subrange(0, cs@.len() as int) =~= s@);
    proof {
        lemma_trimmed(s@, a as int, b as int);
    }
    let t = collect_range(&cs, a, b);
    let bytes = t.as_str().as_bytes();
    if bytes.len() != 6 {
        return None;
    }
    let r = hex_byte(bytes[0], bytes[1]);
    let g = hex_byte(bytes[2], bytes[3]);
    let bl = hex_byte(bytes[4], bytes[5]);
    match (r, g, bl) {
        (Some(r), Some(g), Some(bl)) => Some(Rgba::rgb(r, g, bl)),
        _ => None,
    }
}

/// The geometry an OOXML `prst` preset names (only the shapes the exporter writes as such).
pub open spec fn preset_geometry(prst: Seq<char>) -> Option<Geometry> {
    if prst == "rect"@ {
        Some(Geometry::Rect)
    } else if prst == "roundRect"@ {
        Some(Geometry::RoundRect { radius: 0 })
    } else if prst == "ellipse"@ {
        Some(Geometry::Ellipse)
    } else if prst == "line"@ {
        Some(Geometry::Line { arrow: false })
    } else {
        None
    }
}

/// Map an OOXML `prst` preset name to a `Geometry`.
pub fn preset_to_geometry(prst: &str) -> (g: Option<Geometry>)
    ensures
        g == preset_geometry(prst@),
{
    if str_eq(prst, "rect") {
        Some(Geometry::Rect)
    } else if str_eq(prst, "roundRect") {
        Some(Geometry::RoundRect { radius: 0 })
    } else if str_eq(prst, "ellipse") {
        Some(Geometry::Ellipse)
    } else if str_eq(prst, "line") {
        Some(Geometry::Line { arrow: false })
    } else {
        None
    }
}

// ---------------------------------------------------------------------------------------
// Relationship targets

/// Index of the first character of `cs` that is not `/`.
pub open spec fn leading_slashes(cs: Seq<char>, i: int) -> int
    decreases cs.len() - i,
{
    if i >= cs.len() || cs[i] != '/' {
        i
    } else {
        leading_slashes(cs, i + 1)
    }
}

/// `cs[i..]` starts with `../`.
pub open spec fn up_at(cs: Seq<char>, i: int) -> bool {
    i + 3 <= cs.len() && cs[i] == '.' && cs[i + 1] == '.' && cs[i + 2] == '/'
}

/// Where `cs[i..]` starts once every leading `../` is removed.
pub open spec fn past_ups(cs: Seq<char>, i: int) -> int
    decreases cs.len() - i,
{
    if i >= 0 && up_at(cs, i) {
        past_ups(cs, i + 3)
    } else {
        i
    }
}

/// The part path a relationship target (relative to `ppt/`) names: leading `/` dropped,
/// every leading `../` resolved against `ppt/` (climbing out of it), and `ppt/` prefixed when
/// there was none.
pub open spec fn normalize_part_path_spec(target: Seq<char>) -> Seq<char> {
    let s = leading_slashes(target, 0);
    let e = past_ups(target, s);
    if e > s {
        target.skip(e)
    } else {
        "ppt/"@ + target.skip(s)
    }
}

/// Normalize a relationship `Target` (relative to `ppt/`) into a full package part path.
pub fn normalize_part_path(target: &str) -> (p: String)
    ensures
        p@ == normalize_part_path_spec(target@),
{
    let cs = char_vec(target);
    let mut s: usize = 0;
    while s < cs.len() && cs[s] == '/'
        invariant
            s <= cs.len(),
            cs@ == target@,
            leading_slashes(target@, 0) == leading_slashes(target@, s as int),
        decreases cs.len() - s,
    {
        s = s + 1;
    }
    let mut e = s;
    while cs.len() - e >= 3 && cs[e] == '.' && cs[e + 1] == '.' && cs[e + 2] == '/'
        invariant
            s <= e <= cs.len(),
            cs@ == target@,
            past_ups(target@, s as int) == past_ups(target@, e as int),
        decreases cs.len() - e,
    {
        e = e + 3;
    }
    let rest = collect_range(&cs, e, cs.len());
    assert(cs@.subrange(e as int, cs@.len() as int) =~= target@.skip(e as int));
    if e > s {
        rest
    } else {
        let mut p = "ppt/".to_owned();
        p.append(rest.as_str());
        p
    }
}

// ---------------------------------------------------------------------------------------
// Token streams

/// Reading stops at the end of input or at a syntax error.
pub open spec fn is_stop(t: XmlTokenView) -> bool {
    t is Eof || t is Failed
}

/// Index of the first stopping token at or after `i`, or the length.
pub open spec fn first_stop(ts: Seq<XmlTokenView>, i: int) -> int
    decreases ts.len() - i,
{
    if i >= ts.len() {
        ts.len() as int
    } else if is_stop(ts[i]) {
        i
    } else {
        first_stop(ts, i + 1)
    }
}

/// The name and attributes of an element start (self-closing or not).
pub open spec fn element_of(t: XmlTokenView) -> Option<(Seq<u8>, Seq<(Seq<u8>, Option<Seq<char>>)>)> {
    match t {
        XmlTokenView::Start { name, attrs } => Some((name, attrs)),
        XmlTokenView::Empty { name, attrs } => Some((name, attrs)),
        _ => None,
    }
}

/// What `ppt/presentation.xml` gives: the slide size and the slide relationship ids in order.
pub struct PresInfoView {
    pub size: Option<SizeEmu>,
    pub rids: Seq<Seq<char>>,
}

/// One token of `ppt/presentation.xml`: `sldSz` sets the slide size when both `cx` and `cy`
/// are numbers; `sldId` adds its `r:id`.
pub open spec fn pres_step(st: PresInfoView, t: XmlTokenView) -> PresInfoView {
    match element_of(t) {
        Some((name, attrs)) => if local_name_spec(name) == "sldSz"@ {
            match (attr_num(attrs, "cx".spec_bytes()), attr_num(attrs, "cy".spec_bytes())) {
                (Some(cx), Some(cy)) => PresInfoView { size: Some(SizeEmu { w: cx, h: cy }), ..st },
                _ => st,
            }
        } else if local_name_spec(name) == "sldId"@ {
            match attr_lookup(attrs, "r:id".spec_bytes()) {
                Some(rid) => PresInfoView { rids: st.rids.push(rid), ..st },
                None => st,
            }
        } else {
            st
        },
        None => st,
    }
}

pub open spec fn pres_fold(ts: Seq<XmlTokenView>, n: int) -> PresInfoView
    decreases n,
{
    if n <= 0 {
        PresInfoView { size: None, rids: Seq::empty() }
    } else {
        pres_step(pres_fold(ts, n - 1), ts[n - 1])
    }
}

/// The slide size and slide relationship ids read from the tokens before the first stop.
pub open spec fn parse_presentation_spec(ts: Seq<XmlTokenView>) -> PresInfoView {
    pres_fold(ts, first_stop(ts, 0))
}

pub open spec fn strings_view(v: Seq<String>) -> Seq<Seq<char>> {
    v.map_values(|s: String| s@)
}

proof fn lemma_first_stop(ts: Seq<XmlTokenView>, i: int)
    requires
        0 <= i <= ts.len(),
        forall|j: int| 0 <= j < i ==> !is_stop(#[trigger] ts[j]),
    ensures
        i <= first_stop(ts, i) <= ts.len(),
        first_stop(ts, 0) == first_stop(ts, i),
    decreases i,
{
    lemma_first_stop_bounds(ts, i);
    if i > 0 {
        lemma_first_stop(ts, i - 1);
    }
}

proof fn lemma_first_stop_bounds(ts: Seq<XmlTokenView>, i: int)
    requires
        0 <= i <= ts.len(),
    ensures
        i <= first_stop(ts, i) <= ts.len(),
        first_stop(ts, i) < ts.len() ==> is_stop(ts[first_stop(ts, i)]),
    decreases ts.len() - i,
{
    if i < ts.len() && !is_stop(ts[i]) {
        lemma_first_stop_bounds(ts, i + 1);
    }
}

/// The local name of an element start.
fn element_name(t: &XmlToken) -> (r: Option<String>)
    ensures
        match element_of(t@) {
            Some((name, _)) => r matches Some(n) && n@ == local_name_spec(name),
            None => r is None,
        },
{
    match t {
        XmlToken::Start { name, .. } => Some(local_name(name.as_slice())),
        XmlToken::Empty { name, .. } => Some(local_name(name.as_slice())),
        _ => None,
    }
}

/// Parse the tokens of `ppt/presentation.xml` for the slide size and the ordered slide
/// relationship ids (`<p:sldId r:id="rIdN"/>`; the numeric id is ignored).
pub fn parse_presentation_tokens(ts: &Vec<XmlToken>) -> (r: (Option<SizeEmu>, Vec<String>))
    ensures
        r.0 == parse_presentation_spec(tokens_view(ts@)).size,
        strings_view(r.1@) == parse_presentation_spec(tokens_view(ts@)).rids,
{
    let ghost tv = tokens_view(ts@);
    let mut size: Option<SizeEmu> = None;
    let mut rids: Vec<String> = Vec::new();
    let mut i: usize = 0;
    while i < ts.len()
        invariant_except_break
            i <= ts@.len(),
            tv == tokens_view(ts@),
            first_stop(tv, 0) == first_stop(tv, i as int),
            size == pres_fold(tv, i as int).size,
            strings_view(rids@) == pres_fold(tv, i as int).rids,
        ensures
            tv == tokens_view(ts@),
            size == pres_fold(tv, first_stop(tv, 0)).size,
            strings_view(rids@) == pres_fold(tv, first_stop(tv, 0)).rids,
        decreases ts@.len() - i,
    {
        let t = &ts[i];
        match t {
            XmlToken::Eof | XmlToken::Failed => {
                assert(is_stop(tv[i as int]));
                break;
            },
            _ => {},
        }
        let name = element_name(t);
        match (name, t) {
            (Some(n), XmlToken::Start { attrs, .. }) | (Some(n), XmlToken::Empty { attrs, .. }) => {
                if str_eq(n.as_str(), "sldSz") {
                    let cx = attr_i64(attrs, "cx");
                    let cy = attr_i64(attrs, "cy");
                    match (cx, cy) {
                        (Some(cx), Some(cy)) => {
                            size = Some(SizeEmu::new(cx, cy));
                        },
                        _ => {},
                    }
                } else if str_eq(n.as_str(), "sldId") {
                    match attr_str(attrs, "r:id") {
                        Some(rid) => {
                            let ghost before = rids@;
                            rids.push(rid);
                            assert(strings_view(rids@) =~= strings_view(before).push(rid@));
                        },
                        None => {},
                    }
                }
            },
            _ => {},
        }
        i = i + 1;
    }
    (size, rids)
}

/// One token of a relationships part: a `Relationship` with both an `Id` and a `Target`
/// is recorded.
pub open spec fn rels_step(pairs: Seq<(Seq<char>, Seq<char>)>, t: XmlTokenView) -> Seq<
    (Seq<char>, Seq<char>),
> {
    match element_of(t) {
        Some((name, attrs)) => if local_name_spec(name) == "Relationship"@ {
            match (attr_lookup(attrs, "Id".spec_bytes()), attr_lookup(attrs, "Target".spec_bytes())) {
                (Some(id), Some(target)) => pairs.push((id, target)),
                _ => pairs,
            }
        } else {
            pairs
        },
        None => pairs,
    }
}

pub open spec fn rels_fold(ts: Seq<XmlTokenView>, n: int) -> Seq<(Seq<char>, Seq<char>)>
    decreases n,
{
    if n <= 0 {
        Seq::empty()
    } else {
        rels_step(rels_fold(ts, n - 1), ts[n - 1])
    }
}

/// The (id, target) pairs of a relationships part, in document order.
pub open spec fn parse_rels_spec(ts: Seq<XmlTokenView>) -> Seq<(Seq<char>, Seq<char>)> {
    rels_fold(ts, first_stop(ts, 0))
}

/// The target recorded last for relationship id `rid` (a later entry replaces an earlier one).
pub open spec fn rel_target(pairs: Seq<(Seq<char>, Seq<char>)>, rid: Seq<char>) -> Option<Seq<char>>
    decreases pairs.len(),
{
    if pairs.len() == 0 {
        None
    } else if pairs.last().0 == rid {
        Some(pairs.last().1)
    } else {
        rel_target(pairs.drop_last(), rid)
    }
}

pub open spec fn pairs_view(v: Seq<(String, String)>) -> Seq<(Seq<char>, Seq<char>)> {
    v.map_values(|p: (String, String)| (p.0@, p.1@))
}

/// Parse the tokens of a `*.rels` part into (relationship id, target path) pairs.
pub fn parse_rels_tokens(ts: &Vec<XmlToken>) -> (r: Vec<(String, String)>)
    ensures
        pairs_view(r@) == parse_rels_spec(tokens_view(ts@)),
{
    let ghost tv = tokens_view(ts@);
    let mut pairs: Vec<(String, String)> = Vec::new();
    let mut i: usize = 0;
    while i < ts.len()
        invariant_except_break
            i <= ts@.len(),
            tv == tokens_view(ts@),
            first_stop(tv, 0) == first_stop(tv, i as int),
            pairs_view(pairs@) == rels_fold(tv, i as int),
        ensures
            tv == tokens_view(ts@),
            pairs_view(pairs@) == rels_fold(tv, first_stop(tv, 0)),
        decreases ts@.len() - i,
    {
        let t = &ts[i];
        match t {
            XmlToken::Eof | XmlToken::Failed => {
                assert(is_stop(tv[i as int]));
                break;
            },
            _ => {},
        }
        let name = element_name(t);
        match (name, t) {
            (Some(n), XmlToken::Start { attrs, .. }) | (Some(n), XmlToken::Empty { attrs, .. }) => {
                if str_eq(n.as_str(), "Relationship") {
                    match (attr_str(attrs, "Id"), attr_str(attrs, "Target")) {
                        (Some(id), Some(target)) => {
                            let ghost before = pairs@;
                            pairs.push((id, target));
                            assert(pairs_view(pairs@) =~= pairs_view(before).push((id@, target@)));
                        },
                        _ => {},
                    }
                }
            },
            _ => {},
        }
        i = i + 1;
    }
    pairs
}

/// The target of relationship `rid`.
pub fn find_rel_target(pairs: &Vec<(String, String)>, rid: &str) -> (t: Option<String>)
    ensures
        match t {
            Some(s) => rel_target(pairs_view(pairs@), rid@) == Some(s@),
            None => rel_target(pairs_view(pairs@), rid@) is None,
        },
{
    let ghost pv = pairs_view(pairs@);
    let mut n = pairs.len();
    assert(pv.take(n as int) =~= pv);
    while n > 0
        invariant
            n <= pairs@.len(),
            pv == pairs_view(pairs@),
            rel_target(pv, rid@) == rel_target(pv.take(n as int), rid@),
        decreases n,
    {
        assert(pv.take(n as int).drop_last() =~= pv.take(n - 1));
        if str_eq(pairs[n - 1].0.as_str(), rid) {
            return Some(pairs[n - 1].1.clone());
        }
        n = n - 1;
    }
    None
}

// ---------------------------------------------------------------------------------------
// Slides

/// What one `<p:sp>` of a slide gives: offset, extent, rotation (60000ths of a degree),
/// preset geometry, solid fill colour, and the text of each `<a:t>`.
pub struct ParsedShape {
    pub off: Option<(i64, i64)>,
    pub ext: Option<(i64, i64)>,
    pub rotation: Option<i64>,
    pub geometry: Option<Geometry>,
    pub fill: Option<Color>,
    pub texts: Vec<String>,
}

pub struct ParsedShapeView {
    pub off: Option<(i64, i64)>,
    pub ext: Option<(i64, i64)>,
    pub rotation: Option<i64>,
    pub geometry: Option<Geometry>,
    pub fill: Option<Color>,
    pub texts: Seq<Seq<char>>,
}

impl View for ParsedShape {
    type V = ParsedShapeView;

    open spec fn view(&self) -> ParsedShapeView {
        ParsedShapeView {
            off: self.off,
            ext: self.ext,
            rotation: self.rotation,
            geometry: self.geometry,
            fill: self.fill,
            texts: strings_view(self.texts@),
        }
    }
}

pub open spec fn fresh_shape() -> ParsedShapeView {
    ParsedShapeView {
        off: None,
        ext: None,
        rotation: None,
        geometry: None,
        fill: None,
        texts: Seq::empty(),
    }
}

/// The state of reading a slide: the shape being read, whether the reader is inside an
/// `<a:t>`, the `solidFill` nesting depth, the shapes finished so far, and whether the
/// tokens read so far make the reader fail (elements nested past the range of an `i32` depth).
pub struct SlideReadView {
    pub shape: Option<ParsedShapeView>,
    pub in_text: bool,
    pub depth: int,
    pub done: Seq<ParsedShapeView>,
    pub fault: bool,
}

/// The corner radius an `adj` guide value `a` gives a rounded rectangle of extent `ext`:
/// `a` is taken in `0..=50000` (hundred-thousandths of the shorter side), and the radius is
/// that share of the shorter side, rounded down; zero without an extent.
pub open spec fn radius_from_adj(a: i64, ext: Option<(i64, i64)>) -> i64 {
    let adj: int = if a < 0 {
        0
    } else if a > 50000 {
        50000
    } else {
        a as int
    };
    match ext {
        Some((cx, cy)) => {
            let ss: int = if cx < cy {
                cx as int
            } else {
                cy as int
            };
            if ss <= 0 {
                0
            } else {
                (adj * ss / 100000) as i64
            }
        },
        None => 0,
    }
}

/// The number of a guide formula `val N`.
pub open spec fn guide_val(f: Seq<char>) -> Option<i64> {
    if f.len() >= 4 && f.take(4) == "val "@ {
        parse_i64_spec(f.skip(4))
    } else {
        None
    }
}

/// The guide `<a:gd name="adj" fmla="val N"/>` of a rounded rectangle: its `N`.
pub open spec fn adj_guide(attrs: Seq<(Seq<u8>, Option<Seq<char>>)>) -> Option<i64> {
    if attr_lookup(attrs, "name".spec_bytes()) == Some("adj"@) {
        match attr_lookup(attrs, "fmla".spec_bytes()) {
            Some(f) => guide_val(f),
            None => None,
        }
    } else {
        None
    }
}

/// The attributes of an element inside a shape: `off` and `ext` set the position and size
/// when both numbers parse, `xfrm` the rotation, `prstGeom` the geometry (an unknown preset
/// clears it), an `adj` guide of a rounded rectangle its corner radius, and an `srgbClr`
/// inside a `solidFill` the fill, when none is set yet.
pub open spec fn shape_attrs(sh: ParsedShapeView, depth: int, name: Seq<char>, attrs: Seq<
    (Seq<u8>, Option<Seq<char>>),
>) -> (ParsedShapeView, bool) {
    if name == "off"@ {
        match (attr_num(attrs, "x".spec_bytes()), attr_num(attrs, "y".spec_bytes())) {
            (Some(x), Some(y)) => (ParsedShapeView { off: Some((x, y)), ..sh }, false),
            _ => (sh, false),
        }
    } else if name == "ext"@ {
        match (attr_num(attrs, "cx".spec_bytes()), attr_num(attrs, "cy".spec_bytes())) {
            (Some(cx), Some(cy)) => (ParsedShapeView { ext: Some((cx, cy)), ..sh }, false),
            _ => (sh, false),
        }
    } else if name == "xfrm"@ {
        match attr_num(attrs, "rot".spec_bytes()) {
            Some(r) => (ParsedShapeView { rotation: Some(r), ..sh }, false),
            None => (sh, false),
        }
    } else if name == "prstGeom"@ {
        match attr_lookup(attrs, "prst".spec_bytes()) {
            Some(p) => (ParsedShapeView { geometry: preset_geometry(p), ..sh }, false),
            None => (sh, false),
        }
    } else if name == "gd"@ && sh.geometry matches Some(Geometry::RoundRect { .. }) {
        match adj_guide(attrs) {
            Some(a) => (
                ParsedShapeView { geometry: Some(Geometry::RoundRect { radius: radius_from_adj(a, sh.ext) }), ..sh },
                false,
            ),
            None => (sh, false),
        }
    } else if name == "srgbClr"@ && depth > 0 && sh.fill is None {
        match attr_lookup(attrs, "val".spec_bytes()) {
            Some(v) => (
                match parse_hex_rgb_spec(trimmed(v)) {
                    Some(c) => ParsedShapeView { fill: Some(Color::Literal(c)), ..sh },
                    None => sh,
                },
                false,
            ),
            None => (sh, false),
        }
    } else {
        (sh, false)
    }
}

/// The attributes of an element, applied to the shape being read, if any.
pub open spec fn read_attrs(st: SlideReadView, name: Seq<char>, attrs: Seq<
    (Seq<u8>, Option<Seq<char>>),
>) -> SlideReadView {
    match st.shape {
        Some(sh) => {
            let (sh2, f) = shape_attrs(sh, st.depth, name, attrs);
            SlideReadView { shape: Some(sh2), fault: st.fault || f, ..st }
        },
        None => st,
    }
}

/// One token of a slide part. `<p:sp>` starts a shape and `</p:sp>` finishes it; `solidFill`
/// starts and ends count the nesting depth (the count saturates at the bottom of `i32`);
/// text inside `<a:t>` is added to the shape when it unescapes; other element starts, and
/// every self-closing element, pass their attributes to the shape.
pub open spec fn slide_step(st: SlideReadView, t: XmlTokenView) -> SlideReadView {
    match t {
        XmlTokenView::Start { name, attrs } => {
            let n = local_name_spec(name);
            if n == "sp"@ {
                SlideReadView { shape: Some(fresh_shape()), ..st }
            } else if n == "solidFill"@ {
                SlideReadView { depth: st.depth + 1, fault: st.fault || st.depth == i32::MAX, ..st }
            } else if n == "t"@ {
                SlideReadView { in_text: true, ..st }
            } else {
                read_attrs(st, n, attrs)
            }
        },
        XmlTokenView::Empty { name, attrs } => read_attrs(st, local_name_spec(name), attrs),
        XmlTokenView::Text(text) => if st.in_text {
            match (st.shape, text) {
                (Some(sh), Some(x)) => SlideReadView {
                    shape: Some(ParsedShapeView { texts: sh.texts.push(x), ..sh }),
                    ..st
                },
                _ => st,
            }
        } else {
            st
        },
        XmlTokenView::End { name } => {
            let n = local_name_spec(name);
            if n == "t"@ {
                SlideReadView { in_text: false, ..st }
            } else if n == "solidFill"@ {
                SlideReadView {
                    depth: if st.depth > i32::MIN {
                        st.depth - 1
                    } else {
                        st.depth
                    },
                    ..st
                }
            } else if n == "sp"@ {
                match st.shape {
                    Some(sh) => SlideReadView { shape: None, done: st.done.push(sh), ..st },
                    None => st,
                }
            } else {
                st
            }
        },
        _ => st,
    }
}

pub open spec fn slide_fold(ts: Seq<XmlTokenView>, n: int) -> SlideReadView
    decreases n,
{
    if n <= 0 {
        SlideReadView { shape: None, in_text: false, depth: 0, done: Seq::empty(), fault: false }
    } else {
        slide_step(slide_fold(ts, n - 1), ts[n - 1])
    }
}

/// Reading the tokens of a slide part up to the first stop.
pub open spec fn read_slide_spec(ts: Seq<XmlTokenView>) -> SlideReadView {
    slide_fold(ts, first_stop(ts, 0))
}

/// Once reading fails it stays failed.
proof fn lemma_fault_stays(ts: Seq<XmlTokenView>, i: int, j: int)
    requires
        0 <= i <= j,
        slide_fold(ts, i).fault,
    ensures
        slide_fold(ts, j).fault,
    decreases j - i,
{
    if i < j {
        lemma_fault_stays(ts, i, j - 1);
    }
}

pub open spec fn shapes_view(v: Seq<ParsedShape>) -> Seq<ParsedShapeView> {
    v.map_values(|s: ParsedShape| s@)
}

/// The corner radius an `adj` guide value gives a rounded rectangle of extent `ext`.
fn radius_of_adj(a: i64, ext: Option<(i64, i64)>) -> (r: i64)
    ensures
        r == radius_from_adj(a, ext),
{
    let adj: i128 = if a < 0 {
        0
    } else if a > 50000 {
        50000
    } else {
        a as i128
    };
    match ext {
        Some((cx, cy)) => {
            let ss: i128 = if cx < cy {
                cx as i128
            } else {
                cy as i128
            };
            if ss <= 0 {
                0
            } else {
                assert(0 <= adj * ss <= 50000 * ss) by (nonlinear_arith)
                    requires
                        0 <= adj <= 50000,
                        0 < ss,
                ;
                assert(50000 * ss / 100000 <= ss) by (nonlinear_arith)
                    requires
                        0 < ss,
                ;
                assert(adj * ss / 100000 <= 50000 * ss / 100000) by (nonlinear_arith)
                    requires
                        0 <= adj * ss <= 50000 * ss,
                ;
                (adj * ss / 100000) as i64
            }
        },
        None => 0,
    }
}

/// The number of an `adj` guide (`name="adj"`, `fmla="val N"`).
fn adj_guide_of(attrs: &Vec<(Vec<u8>, Option<String>)>) -> (r: Option<i64>)
    ensures
        r == adj_guide(attrs_view(attrs@)),
{
    proof {
        reveal_strlit("adj");
        reveal_strlit("val ");
    }
    match attr_str(attrs, "name") {
        Some(n) => {
            if !str_eq(n.as_str(), "adj") {
                return None;
            }
        },
        None => {
            return None;
        },
    }
    match attr_str(attrs, "fmla") {
        Some(f) => {
            let cs = char_vec(f.as_str());
            if cs.len() >= 4 && cs[0] == 'v' && cs[1] == 'a' && cs[2] == 'l' && cs[3] == ' ' {
                assert(f@.take(4) =~= "val "@);
                let r = parse_i64_range(&cs, 4, cs.len());
                assert(cs@.subrange(4, cs@.len() as int) =~= f@.skip(4));
                r
            } else {
                proof {
                    if f@.len() >= 4 && f@.take(4) == "val "@ {
                        assert(f@[0] == f@.take(4)[0] && f@[1] == f@.take(4)[1] && f@[2] == f@.take(4)[2] && f@[3] == f@.take(4)[3]);
                    }
                }
                None
            }
        },
        None => None,
    }
}

fn apply_shape_attrs(sh: ParsedShape, depth: i32, name: &str, attrs: &Vec<(Vec<u8>, Option<String>)>) -> (r: (ParsedShape, bool))
    ensures
        r.1 == shape_attrs(sh@, depth as int, name@, attrs_view(attrs@)).1,
        !r.1 ==> r.0@ == shape_attrs(sh@, depth as int, name@, attrs_view(attrs@)).0,
{
    let mut sh = sh;
    if str_eq(name, "off") {
        match (attr_i64(attrs, "x"), attr_i64(attrs, "y")) {
            (Some(x), Some(y)) => {
                sh.off = Some((x, y));
            },
            _ => {},
        }
    } else if str_eq(name, "ext") {
        match (attr_i64(attrs, "cx"), attr_i64(attrs, "cy")) {
            (Some(cx), Some(cy)) => {
                sh.ext = Some((cx, cy));
            },
            _ => {},
        }
    } else if str_eq(name, "xfrm") {
        match attr_i64(attrs, "rot") {
            Some(r) => {
                sh.rotation = Some(r);
            },
            None => {},
        }
    } else if str_eq(name, "prstGeom") {
        match attr_str(attrs, "prst") {
            Some(p) => {
                sh.geometry = preset_to_geometry(p.as_str());
            },
            None => {},
        }
    } else if str_eq(name, "gd") && matches!(sh.geometry, Some(Geometry::RoundRect { .. })) {
        match adj_guide_of(attrs) {
            Some(a) => {
                sh.geometry = Some(Geometry::RoundRect { radius: radius_of_adj(a, sh.ext) });
            },
            None => {},
        }
    } else if str_eq(name, "srgbClr") && depth > 0 && sh.fill.is_none() {
        match attr_str(attrs, "val") {
            Some(v) => {
                match parse_hex_rgb(v.as_str()) {
                    Some(c) => {
                        sh.fill = Some(Color::Literal(c));
                    },
                    None => {},
                }
            },
            None => {},
        }
    }
    (sh, false)
}

/// Read the shapes of a slide part from its tokens, in the order their `<p:sp>` elements end.
/// For each shape: offset, extent, rotation, preset geometry, solid fill and the text of each
/// `<a:t>`. Unknown elements are ignored; reading stops at the end of input or an error.
pub fn read_slide_tokens(ts: &Vec<XmlToken>) -> (r: (Vec<ParsedShape>, bool))
    ensures
        r.1 == read_slide_spec(tokens_view(ts@)).fault,
        !r.1 ==> shapes_view(r.0@) == read_slide_spec(tokens_view(ts@)).done,
{
    let ghost tv = tokens_view(ts@);
    let ghost stop = first_stop(tv, 0);
    let mut shape: Option<ParsedShape> = None;
    let mut in_text = false;
    let mut depth: i32 = 0;
    let mut done: Vec<ParsedShape> = Vec::new();
    let mut i: usize = 0;
    proof {
        lemma_first_stop_bounds(tv, 0);
    }
    while i < ts.len()
        invariant_except_break
            i <= ts@.len(),
            i <= stop,
            tv == tokens_view(ts@),
            stop == first_stop(tv, 0),
            stop == first_stop(tv, i as int),
            0 <= stop <= tv.len(),
            !slide_fold(tv, i as int).fault,
            match shape {
                Some(sh) => slide_fold(tv, i as int).shape == Some(sh@),
                None => slide_fold(tv, i as int).shape is None,
            },
            in_text == slide_fold(tv, i as int).in_text,
            depth == slide_fold(tv, i as int).depth,
            shapes_view(done@) == slide_fold(tv, i as int).done,
        ensures
            tv == tokens_view(ts@),
            !slide_fold(tv, first_stop(tv, 0)).fault,
            shapes_view(done@) == slide_fold(tv, first_stop(tv, 0)).done,
        decreases ts@.len() - i,
    {
        let t = &ts[i];
        match t {
            XmlToken::Eof | XmlToken::Failed => {
                assert(is_stop(tv[i as int]));
                break;
            },
            _ => {},
        }
        proof {
            assert(!is_stop(tv[i as int]));
            if i + 1 > stop {
                assert(first_stop(tv, i as int) == first_stop(tv, i + 1));
                lemma_first_stop_bounds(tv, i + 1);
            }
        }
        let ghost st = slide_fold(tv, i as int);
        let ghost before = done@;
        match t {
            XmlToken::Start { name, attrs } => {
                let n = local_name(name.as_slice());
                if str_eq(n.as_str(), "sp") {
                    let texts: Vec<String> = Vec::new();
                    assert(strings_view(texts@) =~= Seq::<Seq<char>>::empty());
                    shape = Some(
                        ParsedShape {
                            off: None,
                            ext: None,
                            rotation: None,
                            geometry: None,
                            fill: None,
                            texts,
                        },
                    );
                } else if str_eq(n.as_str(), "solidFill") {
                    if depth == i32::MAX {
                        proof {
                            lemma_fault_stays(tv, i + 1, stop);
                        }
                        return (done, true);
                    }
                    depth = depth + 1;
                } else if str_eq(n.as_str(), "t") {
                    in_text = true;
                } else {
                    match shape {
                        Some(sh) => {
                            let (sh2, fault) = apply_shape_attrs(sh, depth, n.as_str(), attrs);
                            if fault {
                                proof {
                                    lemma_fault_stays(tv, i + 1, stop);
                                }
                                return (done, true);
                            }
                            shape = Some(sh2);
                        },
                        None => {
                            shape = None;
                        },
                    }
                }
            },
            XmlToken::Empty { name, attrs } => {
                let n = local_name(name.as_slice());
                match shape {
                    Some(sh) => {
                        let (sh2, fault) = apply_shape_attrs(sh, depth, n.as_str(), attrs);
                        if fault {
                            proof {
                                lemma_fault_stays(tv, i + 1, stop);
                            }
                            return (done, true);
                        }
                        shape = Some(sh2);
                    },
                    None => {
                        shape = None;
                    },
                }
            },
            XmlToken::Text(text) => {
                if in_text {
                    match (shape, text) {
                        (Some(sh), Some(x)) => {
                            let mut sh = sh;
                            let ghost old_texts = sh.texts@;
                            sh.texts.push(x.clone());
                            assert(strings_view(sh.texts@) =~= strings_view(old_texts).push(x@));
                            shape = Some(sh);
                        },
                        (sh, _) => {
                            shape = sh;
                        },
                    }
                }
            },
            XmlToken::End { name } => {
                let n = local_name(name.as_slice());
                if str_eq(n.as_str(), "t") {
                    in_text = false;
                } else if str_eq(n.as_str(), "solidFill") {
                    if depth > i32::MIN {
                        depth = depth - 1;
                    }
                } else if str_eq(n.as_str(), "sp") {
                    match shape {
                        Some(sh) => {
                            done.push(sh);
                            assert(shapes_view(done@) =~= shapes_view(before).push(sh@));
                            shape = None;
                        },
                        None => {},
                    }
                }
            },
            _ => {},
        }
        i = i + 1;
    }
    (done, false)
}

/// Read the shapes of a slide part from its tokens (which do not make the reader fail), in
/// the order their `<p:sp>` elements end.
pub fn parse_slide_tokens(ts: &Vec<XmlToken>) -> (shapes: Vec<ParsedShape>)
    requires
        !read_slide_spec(tokens_view(ts@)).fault,
    ensures
        shapes_view(shapes@) == read_slide_spec(tokens_view(ts@)).done,
{
    let (shapes, _) = read_slide_tokens(ts);
    shapes
}

} // verus!
