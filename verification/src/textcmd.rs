//! The text commands of the command registry: setting a text box's text, and formatting
//! every run or paragraph of it at once (size, font, bold/italic/underline, alignment).
//! Each gives the text body the command sets, from the one the shape holds.

use vstd::prelude::*;
use crate::color::{Color, ColorXf, ThemeColorToken};
use crate::font::{FontRef, FontRefView, ThemeFontSlot};
use crate::text::{HAlign, Paragraph, ParagraphView, Run, RunView, SINGLE_SPACING, TextBody, TextBodyView};
use crate::units::{EMU_PER_PT, pt};
use crate::world::{Entity, World};

verus! {

/// A boolean run attribute, flipped across a whole text box by the toggle commands.
#[derive(Clone, Copy, Debug, PartialEq, Eq, Structural)]
pub enum RunAttr {
    Bold,
    Italic,
    Underline,
}

/// The value of attribute `a` on run `r`.
pub open spec fn attr_of(a: RunAttr, r: RunView) -> bool {
    match a {
        RunAttr::Bold => r.bold,
        RunAttr::Italic => r.italic,
        RunAttr::Underline => r.underline,
    }
}

/// A change applied to every run of a text box.
pub enum RunEdit {
    /// Set the font size (EMU).
    Size(i64),
    /// Set the font to this family.
    Family(String),
    /// Set an attribute.
    Attr(RunAttr, bool),
}

/// A run edit as plain values.
pub enum RunEditView {
    Size(i64),
    Family(Seq<char>),
    Attr(RunAttr, bool),
}

impl View for RunEdit {
    type V = RunEditView;

    open spec fn view(&self) -> RunEditView {
        match self {
            RunEdit::Size(s) => RunEditView::Size(*s),
            RunEdit::Family(f) => RunEditView::Family(f@),
            RunEdit::Attr(a, v) => RunEditView::Attr(*a, *v),
        }
    }
}

/// Run `r` with edit `e` applied.
pub open spec fn edited(e: RunEditView, r: RunView) -> RunView {
    match e {
        RunEditView::Size(s) => RunView { size: s, ..r },
        RunEditView::Family(f) => RunView { font: FontRefView::Family(f), ..r },
        RunEditView::Attr(a, v) => match a {
            RunAttr::Bold => RunView { bold: v, ..r },
            RunAttr::Italic => RunView { italic: v, ..r },
            RunAttr::Underline => RunView { underline: v, ..r },
        },
    }
}

/// Paragraph `p` with edit `e` applied to each of its runs.
pub open spec fn edited_paragraph(e: RunEditView, p: ParagraphView) -> ParagraphView {
    ParagraphView { runs: p.runs.map_values(|r: RunView| edited(e, r)), ..p }
}

/// Text body `b` with edit `e` applied to every run.
pub open spec fn edited_body(e: RunEditView, b: TextBodyView) -> TextBodyView {
    TextBodyView { paragraphs: b.paragraphs.map_values(|p: ParagraphView| edited_paragraph(e, p)), ..b }
}

/// Text body `b` with every paragraph aligned `a`.
pub open spec fn aligned_body(a: HAlign, b: TextBodyView) -> TextBodyView {
    TextBodyView { paragraphs: b.paragraphs.map_values(|p: ParagraphView| ParagraphView { align: a, ..p }), ..b }
}

/// The identity colour transform.
pub open spec fn no_xf() -> ColorXf {
    ColorXf { lum_mod: None, lum_off: None, tint: None, shade: None, alpha: None }
}

/// The run a command creates around new text: body font, 18 pt, theme text colour, plain.
pub open spec fn default_run_spec(t: Seq<char>) -> RunView {
    RunView {
        text: t,
        font: FontRefView::Theme(ThemeFontSlot::Minor),
        size: (18 * EMU_PER_PT) as i64,
        color: Color::Theme { token: ThemeColorToken::Dk1, xf: no_xf() },
        bold: false,
        italic: false,
        underline: false,
    }
}

/// A left-aligned, single-spaced paragraph without a bullet holding the single run `r`.
pub open spec fn single_run_paragraph(r: RunView) -> ParagraphView {
    ParagraphView { runs: seq![r], align: HAlign::Left, bullet_level: 0, line_spacing: SINGLE_SPACING }
}

/// The text body after setting the text to `t`: the first run of the first paragraph takes
/// the text, keeping its formatting; a missing first run or first paragraph is created
/// around a default run; with no text body at all, a new one holds just a default run.
pub open spec fn set_text_spec(existing: Option<TextBodyView>, t: Seq<char>) -> TextBodyView {
    match existing {
        Some(b) => if b.paragraphs.len() == 0 {
            TextBodyView { paragraphs: seq![single_run_paragraph(default_run_spec(t))], ..b }
        } else {
            let p0 = b.paragraphs[0];
            let p1 = if p0.runs.len() == 0 {
                ParagraphView { runs: seq![default_run_spec(t)], ..p0 }
            } else {
                ParagraphView { runs: p0.runs.update(0, RunView { text: t, ..p0.runs[0] }), ..p0 }
            };
            TextBodyView { paragraphs: b.paragraphs.update(0, p1), ..b }
        },
        None => TextBodyView { paragraphs: seq![single_run_paragraph(default_run_spec(t))], autofit: false },
    }
}

/// The value a toggle sets: the negation of the first run's (of the first paragraph)
/// current value, `true` when there is no such run.
pub open spec fn toggle_target(a: RunAttr, b: TextBodyView) -> bool {
    if b.paragraphs.len() > 0 && b.paragraphs[0].runs.len() > 0 {
        !attr_of(a, b.paragraphs[0].runs[0])
    } else {
        true
    }
}

/// The run a command creates around new text.
pub fn default_run(text: String) -> (r: Run)
    ensures
        r@ == default_run_spec(text@),
{
    Run {
        text,
        font: FontRef::Theme(ThemeFontSlot::Minor),
        size: pt(18),
        color: Color::theme(ThemeColorToken::Dk1),
        bold: false,
        italic: false,
        underline: false,
    }
}

/// Run `r` with edit `e` applied.
fn edit_run(r: &Run, e: &RunEdit) -> (out: Run)
    ensures
        out@ == edited(e@, r@),
{
    let mut out = r.duplicate();
    match e {
        RunEdit::Size(s) => {
            out.size = *s;
        },
        RunEdit::Family(f) => {
            out.font = FontRef::Family(f.clone());
        },
        RunEdit::Attr(a, v) => match a {
            RunAttr::Bold => {
                out.bold = *v;
            },
            RunAttr::Italic => {
                out.italic = *v;
            },
            RunAttr::Underline => {
                out.underline = *v;
            },
        },
    }
    out
}

/// Apply edit `e` to every run of `body`.
pub fn edit_runs(body: &TextBody, e: &RunEdit) -> (out: TextBody)
    ensures
        out@ == edited_body(e@, body@),
{
    let mut paragraphs: Vec<Paragraph> = Vec::new();
    let mut i: usize = 0;
    while i < body.paragraphs.len()
        invariant
            i <= body.paragraphs@.len(),
            paragraphs@.len() == i,
            forall|j: int| 0 <= j < i ==> #[trigger] paragraphs@[j]@ == edited_paragraph(e@, body.paragraphs@[j]@),
        decreases body.paragraphs@.len() - i,
    {
        let p = &body.paragraphs[i];
        let mut runs: Vec<Run> = Vec::new();
        let mut k: usize = 0;
        while k < p.runs.len()
            invariant
                k <= p.runs@.len(),
                runs@.len() == k,
                forall|j: int| 0 <= j < k ==> #[trigger] runs@[j]@ == edited(e@, p.runs@[j]@),
            decreases p.runs@.len() - k,
        {
            runs.push(edit_run(&p.runs[k], e));
            k = k + 1;
        }
        let q = Paragraph { runs, align: p.align, bullet_level: p.bullet_level, line_spacing: p.line_spacing };
        assert(q@.runs =~= p@.runs.map_values(|r: RunView| edited(e@, r)));
        paragraphs.push(q);
        i = i + 1;
    }
    let out = TextBody { paragraphs, autofit: body.autofit };
    assert(out@.paragraphs =~= body@.paragraphs.map_values(|p: ParagraphView| edited_paragraph(e@, p)));
    out
}

/// Set every run's font size to `points` points, at least one point.
pub fn set_font_size(body: &TextBody, points: i64) -> (out: TextBody)
    requires
        points * EMU_PER_PT <= i64::MAX,
    ensures
        out@ == edited_body(RunEditView::Size(((if points < 1 { 1 } else { points }) * EMU_PER_PT) as i64), body@),
{
    let p: i64 = if points < 1 {
        1
    } else {
        points
    };
    edit_runs(body, &RunEdit::Size(pt(p)))
}

/// Set every run's font to the family `family`.
pub fn set_font(body: &TextBody, family: &str) -> (out: TextBody)
    ensures
        out@ == edited_body(RunEditView::Family(family@), body@),
{
    edit_runs(body, &RunEdit::Family(family.to_string()))
}

/// Flip attribute `a` across the whole text box: every run takes the negation of the first
/// run's current value.
pub fn toggle_attr(body: &TextBody, a: RunAttr) -> (out: TextBody)
    ensures
        out@ == edited_body(RunEditView::Attr(a, toggle_target(a, body@)), body@),
{
    let first: bool = if body.paragraphs.len() > 0 && body.paragraphs[0].runs.len() > 0 {
        let r = &body.paragraphs[0].runs[0];
        match a {
            RunAttr::Bold => r.bold,
            RunAttr::Italic => r.italic,
            RunAttr::Underline => r.underline,
        }
    } else {
        false
    };
    edit_runs(body, &RunEdit::Attr(a, !first))
}

/// Align every paragraph `a`.
pub fn align_text(body: &TextBody, a: HAlign) -> (out: TextBody)
    ensures
        out@ == aligned_body(a, body@),
{
    let mut paragraphs: Vec<Paragraph> = Vec::new();
    let mut i: usize = 0;
    while i < body.paragraphs.len()
        invariant
            i <= body.paragraphs@.len(),
            paragraphs@.len() == i,
            forall|j: int| 0 <= j < i ==> #[trigger] paragraphs@[j]@ == (ParagraphView {
                align: a,
                ..body.paragraphs@[j]@
            }),
        decreases body.paragraphs@.len() - i,
    {
        let mut q = body.paragraphs[i].duplicate();
        q.align = a;
        paragraphs.push(q);
        i = i + 1;
    }
    let out = TextBody { paragraphs, autofit: body.autofit };
    assert(out@.paragraphs =~= body@.paragraphs.map_values(|p: ParagraphView| ParagraphView { align: a, ..p }));
    out
}

/// Set the text of a text box to `text`, keeping the formatting of its first run; `existing`
/// is the text body the shape holds, if any.
pub fn set_text(existing: Option<&TextBody>, text: String) -> (out: TextBody)
    ensures
        out@ == set_text_spec(
            match existing {
                Some(b) => Some(b@),
                None => None,
            },
            text@,
        ),
{
    match existing {
        Some(b) => {
            let mut body = b.duplicate();
            if body.paragraphs.len() == 0 {
                let ghost t = text@;
                let mut runs: Vec<Run> = Vec::new();
                runs.push(default_run(text));
                let p = Paragraph::new(runs);
                assert(p@.runs =~= seq![default_run_spec(t)]);
                assert(p@ == single_run_paragraph(default_run_spec(t)));
                body.paragraphs.push(p);
                assert(body@.paragraphs =~= seq![single_run_paragraph(default_run_spec(t))]);
            } else {
                let mut p0 = body.paragraphs[0].duplicate();
                if p0.runs.len() == 0 {
                    p0.runs.push(default_run(text));
                    assert(p0@.runs =~= seq![default_run_spec(text@)]);
                } else {
                    let mut r0 = p0.runs[0].duplicate();
                    r0.text = text;
                    p0.runs.set(0, r0);
                    assert(p0@.runs =~= b@.paragraphs[0].runs.update(0, RunView { text: text@, ..b@.paragraphs[0].runs[0] }));
                }
                body.paragraphs.set(0, p0);
                assert(body@.paragraphs =~= b@.paragraphs.update(0, body@.paragraphs[0]));
            }
            body
        },
        None => {
            let ghost t = text@;
            let mut runs: Vec<Run> = Vec::new();
            runs.push(default_run(text));
            let p = Paragraph::new(runs);
            assert(p@.runs =~= seq![default_run_spec(t)]);
            assert(p@ == single_run_paragraph(default_run_spec(t)));
            let mut paragraphs: Vec<Paragraph> = Vec::new();
            paragraphs.push(p);
            let body = TextBody { paragraphs, autofit: false };
            assert(body@.paragraphs =~= seq![single_run_paragraph(default_run_spec(t))]);
            body
        },
    }
}

/// A text command of the registry, with its argument.
pub enum TextCommand {
    /// Set the text.
    SetText(String),
    /// Set every run's size, in points (at least one).
    SetFontSize(i64),
    /// Set every run's font family.
    SetFont(String),
    /// Flip an attribute across the text box.
    Toggle(RunAttr),
    /// Align every paragraph.
    Align(HAlign),
}

/// The text body entity `e` holds, if any.
pub open spec fn text_of(w: &World, e: u64) -> Option<TextBodyView> {
    if w.texts@.contains_key(e) {
        Some(w.texts@[e]@)
    } else {
        None
    }
}

/// The text body a text command gives entity `e`: `None` (nothing to do) when a formatting
/// command finds no text on it; setting the text always gives one.
pub fn text_command(world: &World, e: Entity, cmd: &TextCommand) -> (r: Option<TextBody>)
    requires
        text_of(world, e.0) is Some ==> (cmd matches TextCommand::SetFontSize(p) ==> p * EMU_PER_PT <= i64::MAX),
    ensures
        match cmd {
            TextCommand::SetText(t) => r matches Some(b) && b@ == set_text_spec(text_of(world, e.0), t@),
            TextCommand::SetFontSize(p) => match text_of(world, e.0) {
                Some(b) => r matches Some(o) && o@ == edited_body(
                    RunEditView::Size(((if *p < 1 { 1 } else { *p }) * EMU_PER_PT) as i64),
                    b,
                ),
                None => r is None,
            },
            TextCommand::SetFont(f) => match text_of(world, e.0) {
                Some(b) => r matches Some(o) && o@ == edited_body(RunEditView::Family(f@), b),
                None => r is None,
            },
            TextCommand::Toggle(a) => match text_of(world, e.0) {
                Some(b) => r matches Some(o) && o@ == edited_body(RunEditView::Attr(*a, toggle_target(*a, b)), b),
                None => r is None,
            },
            TextCommand::Align(a) => match text_of(world, e.0) {
                Some(b) => r matches Some(o) && o@ == aligned_body(*a, b),
                None => r is None,
            },
        },
{
    let existing = world.texts.get(&e.0);
    match cmd {
        TextCommand::SetText(t) => Some(set_text(existing, t.clone())),
        TextCommand::SetFontSize(p) => match existing {
            Some(b) => Some(set_font_size(b, *p)),
            None => None,
        },
        TextCommand::SetFont(f) => match existing {
            Some(b) => Some(set_font(b, f.as_str())),
            None => None,
        },
        TextCommand::Toggle(a) => match existing {
            Some(b) => Some(toggle_attr(b, *a)),
            None => None,
        },
        TextCommand::Align(a) => match existing {
            Some(b) => Some(align_text(b, *a)),
            None => None,
        },
    }
}

/// Every run of `b` has the same value `v` of attribute `a`.
pub open spec fn uniform(a: RunAttr, b: TextBodyView, v: bool) -> bool {
    forall|i: int, j: int| 0 <= i < b.paragraphs.len() && 0 <= j < b.paragraphs[i].runs.len()
        ==> attr_of(a, #[trigger] b.paragraphs[i].runs[j]) == v
}

/// A toggle follows the first run: every run of the text takes the opposite of the first
/// run's value (on when the text has no run), whatever the other runs held; the runs keep
/// their text, and the other two attributes, size and font of every run are untouched, as
/// are the paragraphs' layout.
pub proof fn law_toggle_follows_first_run(a: RunAttr, b: TextBodyView)
    ensures
        ({
            let t = edited_body(RunEditView::Attr(a, toggle_target(a, b)), b);
            let v = if b.paragraphs.len() > 0 && b.paragraphs[0].runs.len() > 0 {
                !attr_of(a, b.paragraphs[0].runs[0])
            } else {
                true
            };
            &&& uniform(a, t, v)
            &&& t.paragraphs.len() == b.paragraphs.len()
            &&& forall|i: int| 0 <= i < b.paragraphs.len() ==> {
                &&& (#[trigger] t.paragraphs[i]).runs.len() == b.paragraphs[i].runs.len()
                &&& t.paragraphs[i].align == b.paragraphs[i].align
                &&& t.paragraphs[i].bullet_level == b.paragraphs[i].bullet_level
                &&& t.paragraphs[i].line_spacing == b.paragraphs[i].line_spacing
                &&& forall|j: int| 0 <= j < b.paragraphs[i].runs.len() ==> {
                    let r = b.paragraphs[i].runs[j];
                    let q = #[trigger] t.paragraphs[i].runs[j];
                    &&& q.text == r.text && q.size == r.size && q.font == r.font && q.color == r.color
                    &&& forall|o: RunAttr| o != a ==> attr_of(o, q) == attr_of(o, r)
                }
            }
        }),
{
}

/// Toggling an attribute twice gives the text back when every run shared its value; a
/// toggle always leaves every run with one value.
pub proof fn law_toggle_twice(a: RunAttr, b: TextBodyView, v: bool)
    requires
        uniform(a, b, v),
        b.paragraphs.len() > 0 && b.paragraphs[0].runs.len() > 0,
    ensures
        uniform(a, edited_body(RunEditView::Attr(a, toggle_target(a, b)), b), !v),
        edited_body(
            RunEditView::Attr(a, toggle_target(a, edited_body(RunEditView::Attr(a, toggle_target(a, b)), b))),
            edited_body(RunEditView::Attr(a, toggle_target(a, b)), b),
        ) == b,
{
    let t = toggle_target(a, b);
    assert(attr_of(a, b.paragraphs[0].runs[0]) == v);
    assert(t == !v);
    let b1 = edited_body(RunEditView::Attr(a, t), b);
    assert(b1.paragraphs[0].runs[0] == edited(RunEditView::Attr(a, t), b.paragraphs[0].runs[0]));
    assert(toggle_target(a, b1) == v);
    let b2 = edited_body(RunEditView::Attr(a, v), b1);
    assert forall|i: int| 0 <= i < b.paragraphs.len() implies #[trigger] b2.paragraphs[i] == b.paragraphs[i] by {
        let p = b.paragraphs[i];
        assert forall|j: int| 0 <= j < p.runs.len() implies #[trigger] b2.paragraphs[i].runs[j] == p.runs[j] by {
            assert(attr_of(a, p.runs[j]) == v);
            assert(b1.paragraphs[i].runs[j] == edited(RunEditView::Attr(a, t), p.runs[j]));
        }
        assert(b2.paragraphs[i].runs =~= p.runs);
    }
    assert(b2.paragraphs =~= b.paragraphs);
}

} // verus!
