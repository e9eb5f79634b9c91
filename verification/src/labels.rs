//! The labels the layers panel shows for shapes: the user's name for a shape when it has
//! one, else the opening words of a text box, else the kind of shape numbered in order
//! ("Rectangle 1", "Image 2", ...).

use crate::paths::{lemma_trimmed, trim_bounds, trimmed};
use crate::shape::Geometry;
use crate::strings::push_char;
use crate::text::TextBodyView;
use crate::textnav::char_vec;
use crate::world::{Entity, World};
use crate::xmltext::{decimal, push_decimal};
use vstd::prelude::*;

verus! {

/// How many shapes of each kind have been numbered so far.
pub struct LabelCounts {
    pub rect: nat,
    pub ellipse: nat,
    pub image: nat,
    pub text: nat,
    pub line: nat,
    pub arrow: nat,
}

/// The longest text-box excerpt a label shows, in characters.
pub const EXCERPT_CHARS: usize = 18;

/// `word`, a space and `n` in decimal.
pub open spec fn numbered(word: Seq<char>, n: nat) -> Seq<char> {
    word + seq![' '] + decimal(n)
}

/// The text of a text box's first run (empty when it has none).
pub open spec fn first_run_text(tb: TextBodyView) -> Seq<char> {
    if tb.paragraphs.len() > 0 && tb.paragraphs[0].runs.len() > 0 {
        tb.paragraphs[0].runs[0].text
    } else {
        Seq::empty()
    }
}

/// The label of the `n`-th text box, whose first run trims to `content`: the content, cut
/// to its first characters with an ellipsis when long, or "Text n" when empty.
pub open spec fn text_label(content: Seq<char>, n: nat) -> Seq<char> {
    if content.len() == 0 {
        numbered("Text"@, n)
    } else if content.len() > EXCERPT_CHARS {
        content.take(EXCERPT_CHARS as int).push('\u{2026}')
    } else {
        content
    }
}

/// The label of shape `e` and the counts after it.
pub open spec fn label_step(w: &World, e: Entity, c: LabelCounts) -> (Seq<char>, LabelCounts) {
    if w.names@.contains_key(e.0) && trimmed(w.names@[e.0]@).len() > 0 {
        (w.names@[e.0]@, c)
    } else if w.texts@.contains_key(e.0) {
        let n = c.text + 1;
        (
            text_label(trimmed(first_run_text(w.texts@[e.0]@)), n),
            LabelCounts { text: n, ..c },
        )
    } else if w.pictures@.contains_key(e.0) {
        let n = c.image + 1;
        (numbered("Image"@, n), LabelCounts { image: n, ..c })
    } else if w.geometries@.contains_key(e.0) {
        match w.geometries@[e.0] {
            Geometry::Ellipse => {
                let n = c.ellipse + 1;
                (numbered("Ellipse"@, n), LabelCounts { ellipse: n, ..c })
            },
            Geometry::Line { arrow } => if arrow {
                let n = c.arrow + 1;
                (numbered("Arrow"@, n), LabelCounts { arrow: n, ..c })
            } else {
                let n = c.line + 1;
                (numbered("Line"@, n), LabelCounts { line: n, ..c })
            },
            _ => {
                let n = c.rect + 1;
                (numbered("Rectangle"@, n), LabelCounts { rect: n, ..c })
            },
        }
    } else {
        ("Shape"@, c)
    }
}

/// The labels of `kids`, in order, and the counts after the last.
pub open spec fn labels_spec(w: &World, kids: Seq<Entity>) -> (Seq<(Entity, Seq<char>)>, LabelCounts)
    decreases kids.len(),
{
    if kids.len() == 0 {
        (Seq::empty(), LabelCounts { rect: 0, ellipse: 0, image: 0, text: 0, line: 0, arrow: 0 })
    } else {
        let (ls, c) = labels_spec(w, kids.drop_last());
        let (l, c2) = label_step(w, kids.last(), c);
        (ls.push((kids.last(), l)), c2)
    }
}

/// `word`, a space and `n` in decimal, as a string.
fn numbered_exec(word: &str, n: u64) -> (s: String)
    ensures
        s@ == numbered(word@, n as nat),
{
    let mut s = String::new();
    s.append(word);
    push_char(&mut s, ' ');
    push_decimal(&mut s, n);
    s
}

/// The trimmed text of a text box's first run.
fn first_run_trimmed(w: &World, id: u64) -> (s: Vec<char>)
    requires
        w.texts@.contains_key(id),
    ensures
        s@ == trimmed(first_run_text(w.texts@[id]@)),
{
    let tb = w.texts.get(&id).unwrap();
    if tb.paragraphs.len() > 0 && tb.paragraphs[0].runs.len() > 0 {
        let cs = char_vec(tb.paragraphs[0].runs[0].text.as_str());
        let (a, b) = trim_bounds(&cs, 0, cs.len());
        proof {
            assert(cs@.subrange(0, cs@.len() as int) =~= cs@);
            lemma_trimmed(cs@, a as int, b as int);
        }
        let mut out: Vec<char> = Vec::new();
        let mut i = a;
        while i < b
            invariant
                a <= i <= b <= cs.len(),
                out@ == cs@.subrange(a as int, i as int),
            decreases b - i,
        {
            out.push(cs[i]);
            i = i + 1;
            assert(out@ =~= cs@.subrange(a as int, i as int));
        }
        out
    } else {
        proof {
            let e = Seq::<char>::empty();
            assert(crate::paths::trims_to(e, 0, 0));
            lemma_trimmed(e, 0, 0);
        }
        Vec::new()
    }
}

/// The label of a text box whose first run trims to `content`.
fn text_label_exec(content: &Vec<char>, n: u64) -> (s: String)
    ensures
        s@ == text_label(content@, n as nat),
{
    proof {
        reveal_strlit("Text");
    }
    if content.len() == 0 {
        return numbered_exec("Text", n);
    }
    let stop = if content.len() > EXCERPT_CHARS {
        EXCERPT_CHARS
    } else {
        content.len()
    };
    let mut s = String::new();
    let mut i: usize = 0;
    while i < stop
        invariant
            stop <= content.len(),
            i <= stop,
            s@ == content@.take(i as int),
        decreases stop - i,
    {
        push_char(&mut s, content[i]);
        i = i + 1;
        assert(s@ =~= content@.take(i as int));
    }
    if content.len() > EXCERPT_CHARS {
        push_char(&mut s, '\u{2026}');
    } else {
        assert(content@.take(i as int) =~= content@);
    }
    s
}

/// Labels for the shapes `children`, in order: a shape's own non-blank name, else for a text
/// box the start of its first run (or "Text n" when that is blank), else "Image n",
/// "Ellipse n", "Arrow n" (a line with an arrowhead), "Line n" or "Rectangle n" numbering
/// each kind separately in order, else "Shape".
pub fn numbered_labels(w: &World, children: &[Entity]) -> (r: Vec<(Entity, String)>)
    ensures
        r@.map_values(|p: (Entity, String)| (p.0, p.1@)) == labels_spec(w, children@).0,
{
    let mut out: Vec<(Entity, String)> = Vec::new();
    let (mut rect, mut ell, mut img, mut txt) = (0u64, 0u64, 0u64, 0u64);
    let (mut line, mut arrow) = (0u64, 0u64);
    let mut i: usize = 0;
    proof {
        reveal_strlit("Image");
        reveal_strlit("Ellipse");
        reveal_strlit("Arrow");
        reveal_strlit("Line");
        reveal_strlit("Rectangle");
        reveal_strlit("Shape");
    }
    while i < children.len()
        invariant
            i <= children.len(),
            ({
                let (ls, c) = labels_spec(w, children@.take(i as int));
                &&& out@.map_values(|p: (Entity, String)| (p.0, p.1@)) == ls
                &&& c == LabelCounts {
                    rect: rect as nat,
                    ellipse: ell as nat,
                    image: img as nat,
                    text: txt as nat,
                    line: line as nat,
                    arrow: arrow as nat,
                }
            }),
            rect + ell + img + txt + line + arrow <= i,
        decreases children.len() - i,
    {
        let e = children[i];
        let ghost c = labels_spec(w, children@.take(i as int)).1;
        proof {
            assert(children@.take(i + 1).drop_last() =~= children@.take(i as int));
            assert(children@.take(i + 1).last() == e);
        }
        let named = match w.names.get(&e.0) {
            Some(name) => {
                let cs = char_vec(name.as_str());
                let (a, b) = trim_bounds(&cs, 0, cs.len());
                proof {
                    assert(cs@.subrange(0, cs@.len() as int) =~= cs@);
                    lemma_trimmed(cs@, a as int, b as int);
                }
                if a < b {
                    Some(name.clone())
                } else {
                    None
                }
            },
            None => None,
        };
        let label = match named {
            Some(n) => n,
            None => {
                if w.texts.contains_key(&e.0) {
                    txt = txt + 1;
                    let content = first_run_trimmed(w, e.0);
                    text_label_exec(&content, txt)
                } else if w.pictures.contains_key(&e.0) {
                    img = img + 1;
                    numbered_exec("Image", img)
                } else {
                    match w.geometries.get(&e.0) {
                        Some(Geometry::Ellipse) => {
                            ell = ell + 1;
                            numbered_exec("Ellipse", ell)
                        },
                        Some(Geometry::Line { arrow: true }) => {
                            arrow = arrow + 1;
                            numbered_exec("Arrow", arrow)
                        },
                        Some(Geometry::Line { arrow: false }) => {
                            line = line + 1;
                            numbered_exec("Line", line)
                        },
                        Some(_) => {
                            rect = rect + 1;
                            numbered_exec("Rectangle", rect)
                        },
                        None => {
                            let mut s = String::new();
                            s.append("Shape");
                            s
                        },
                    }
                }
            },
        };
        out.push((e, label));
        i = i + 1;
        proof {
            let (ls, c2) = labels_spec(w, children@.take(i as int));
            assert(out@.map_values(|p: (Entity, String)| (p.0, p.1@)) =~= ls);
        }
    }
    proof {
        assert(children@.take(children.len() as int) =~= children@);
    }
    out
}

} // verus!
