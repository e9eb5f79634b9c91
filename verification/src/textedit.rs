//! In-place text editing of a text box: the buffer, its selection and IME composing range,
//! and what each editing key and each IME splice does to them.
//!
//! Offsets are UTF-8 byte offsets into the buffer and always lie on character boundaries.

use crate::strings::{push_char, str_eq};
use crate::textnav::{
    byte_len, byte_offset_of, caret_line_move, caret_target, char_index_of, char_vec,
    is_boundary, lands_at_utf16, range_from_utf16, law_caret_stays_in_text, law_landing_unique, law_offsets_injective,
    lemma_landing_exists, lemma_offset_concat, lemma_offsets_mono, utf16_to_byte, utf8_offset,
};
use crate::text::{ParagraphView, RunView, TextBody};
use std::ops::Range;
use vstd::prelude::*;

verus! {

/// The byte length of text `cs`.
pub open spec fn byte_total(cs: Seq<char>) -> int {
    utf8_offset(cs, cs.len() as int) as int
}

/// The character that starts at byte `b` (the end when `b` is the total).
pub open spec fn char_at(cs: Seq<char>, b: int) -> int {
    choose|k: int| 0 <= k <= cs.len() && #[trigger] utf8_offset(cs, k) == b
}

proof fn lemma_char_at(cs: Seq<char>, b: int)
    requires
        is_boundary(cs, b),
    ensures
        0 <= char_at(cs, b) <= cs.len(),
        utf8_offset(cs, char_at(cs, b)) == b,
{
}

proof fn lemma_char_at_of(cs: Seq<char>, k: int)
    requires
        0 <= k <= cs.len(),
    ensures
        is_boundary(cs, utf8_offset(cs, k) as int),
        char_at(cs, utf8_offset(cs, k) as int) == k,
{
    let b = utf8_offset(cs, k) as int;
    assert(is_boundary(cs, b));
    law_offsets_injective(cs, k, char_at(cs, b));
}

/// `cs` with the characters `i..j` replaced by `ins`.
pub open spec fn splice(cs: Seq<char>, i: int, j: int, ins: Seq<char>) -> Seq<char> {
    cs.take(i) + ins + cs.skip(j)
}

/// The editing keys.
#[derive(Clone, Copy, Debug, PartialEq, Eq, Structural)]
pub enum EditKey {
    /// Ctrl/Cmd+A: select the whole buffer.
    SelectAll,
    /// Insert two spaces.
    Tab,
    /// Insert a line break.
    Enter,
    /// Erase the selection, or the character before the caret.
    Backspace,
    /// Erase the selection, or the character after the caret.
    Delete,
    Left,
    Right,
    Up,
    Down,
}

/// The editing key a key name stands for while a text box is edited; `command` is whether
/// Ctrl or Cmd is held. Escape, which abandons the edit, is not an editing key.
pub open spec fn edit_key_spec(key: Seq<char>, command: bool) -> Option<EditKey> {
    if command && key == "a"@ {
        Some(EditKey::SelectAll)
    } else if key == "tab"@ {
        Some(EditKey::Tab)
    } else if key == "enter"@ {
        Some(EditKey::Enter)
    } else if key == "backspace"@ {
        Some(EditKey::Backspace)
    } else if key == "delete"@ {
        Some(EditKey::Delete)
    } else if key == "left"@ {
        Some(EditKey::Left)
    } else if key == "right"@ {
        Some(EditKey::Right)
    } else if key == "up"@ {
        Some(EditKey::Up)
    } else if key == "down"@ {
        Some(EditKey::Down)
    } else {
        None
    }
}

/// The editing key a key name stands for.
pub fn edit_key_of(key: &str, command: bool) -> (k: Option<EditKey>)
    ensures
        k == edit_key_spec(key@, command),
{
    if command && str_eq(key, "a") {
        Some(EditKey::SelectAll)
    } else if str_eq(key, "tab") {
        Some(EditKey::Tab)
    } else if str_eq(key, "enter") {
        Some(EditKey::Enter)
    } else if str_eq(key, "backspace") {
        Some(EditKey::Backspace)
    } else if str_eq(key, "delete") {
        Some(EditKey::Delete)
    } else if str_eq(key, "left") {
        Some(EditKey::Left)
    } else if str_eq(key, "right") {
        Some(EditKey::Right)
    } else if str_eq(key, "up") {
        Some(EditKey::Up)
    } else if str_eq(key, "down") {
        Some(EditKey::Down)
    } else {
        None
    }
}

/// A text box being edited: the buffer, the selection (a caret when empty) and the IME
/// composing range, as byte ranges.
pub struct TextEdit {
    pub buf: String,
    pub selected: Range<usize>,
    pub marked: Option<Range<usize>>,
}

/// A text edit as plain values.
pub struct TextEditView {
    pub text: Seq<char>,
    pub selected: (int, int),
    pub marked: Option<(int, int)>,
}

impl View for TextEdit {
    type V = TextEditView;

    open spec fn view(&self) -> TextEditView {
        TextEditView {
            text: self.buf@,
            selected: (self.selected.start as int, self.selected.end as int),
            marked: match self.marked {
                Some(m) => Some((m.start as int, m.end as int)),
                None => None,
            },
        }
    }
}

/// A byte range of `cs` from one character boundary to a later one.
pub open spec fn is_span(cs: Seq<char>, r: (int, int)) -> bool {
    is_boundary(cs, r.0) && is_boundary(cs, r.1) && r.0 <= r.1
}

/// The selection and the composing range lie on character boundaries.
pub open spec fn edit_wf(v: TextEditView) -> bool {
    &&& is_span(v.text, v.selected)
    &&& v.marked matches Some(m) ==> is_span(v.text, m)
}

/// Replace the selection by `ins`, leaving a caret after it and no composing range.
pub open spec fn type_over(v: TextEditView, ins: Seq<char>) -> TextEditView {
    let ka = char_at(v.text, v.selected.0);
    let kb = char_at(v.text, v.selected.1);
    let c = v.selected.0 + byte_total(ins);
    TextEditView { text: splice(v.text, ka, kb, ins), selected: (c, c), marked: None }
}

/// What an editing key does, and whether the buffer must be shown again (the edit is live).
pub open spec fn key_spec(v: TextEditView, key: EditKey) -> (TextEditView, bool) {
    let cs = v.text;
    let a = v.selected.0;
    let b = v.selected.1;
    let ka = char_at(cs, a);
    let kb = char_at(cs, b);
    match key {
        EditKey::SelectAll => (
            TextEditView { selected: (0, byte_total(cs)), marked: None, ..v },
            false,
        ),
        EditKey::Tab => (type_over(v, "  "@), true),
        EditKey::Enter => (type_over(v, "\n"@), true),
        EditKey::Backspace => (
            if a != b {
                type_over(v, Seq::empty())
            } else if a > 0 {
                let p = utf8_offset(cs, ka - 1) as int;
                TextEditView { text: splice(cs, ka - 1, ka, Seq::empty()), selected: (p, p), marked: None }
            } else {
                TextEditView { marked: None, ..v }
            },
            true,
        ),
        EditKey::Delete => (
            if a != b {
                type_over(v, Seq::empty())
            } else if kb < cs.len() {
                TextEditView { text: splice(cs, kb, kb + 1, Seq::empty()), marked: None, ..v }
            } else {
                TextEditView { marked: None, ..v }
            },
            true,
        ),
        EditKey::Left => {
            let c = if a > 0 {
                utf8_offset(cs, ka - 1) as int
            } else {
                0
            };
            (TextEditView { selected: (c, c), ..v }, false)
        },
        EditKey::Right => {
            let c = if kb < cs.len() {
                utf8_offset(cs, kb + 1) as int
            } else {
                byte_total(cs)
            };
            (TextEditView { selected: (c, c), ..v }, false)
        },
        EditKey::Up => {
            let c = utf8_offset(cs, caret_target(cs, ka, true)) as int;
            (TextEditView { selected: (c, c), ..v }, false)
        },
        EditKey::Down => {
            let c = utf8_offset(cs, caret_target(cs, kb, false)) as int;
            (TextEditView { selected: (c, c), ..v }, false)
        },
    }
}

/// The character that UTF-16 offset `off` lands on.
pub open spec fn landing16(cs: Seq<char>, off: int) -> int {
    choose|k: int| #[trigger] lands_at_utf16(cs, off, k)
}

/// The byte range an IME splice replaces: the given UTF-16 range converted to bytes, else the
/// composing range, else the selection.
pub open spec fn ime_span(v: TextEditView, range16: Option<Range<usize>>) -> (int, int) {
    match range16 {
        Some(r) => (
            utf8_offset(v.text, landing16(v.text, r.start as int)) as int,
            utf8_offset(v.text, landing16(v.text, r.end as int)) as int,
        ),
        None => match v.marked {
            Some(m) => m,
            None => v.selected,
        },
    }
}

/// A given UTF-16 range does not end before it starts, once converted to characters.
pub open spec fn ime_range_ordered(cs: Seq<char>, range16: Option<Range<usize>>) -> bool {
    range16 matches Some(r) ==> landing16(cs, r.start as int) <= landing16(cs, r.end as int)
}

/// What an IME splice does: the span is replaced by `ins`, the caret follows it, and with
/// `mark` set a non-empty `ins` becomes the composing range.
pub open spec fn ime_spec(
    v: TextEditView,
    range16: Option<Range<usize>>,
    ins: Seq<char>,
    mark: bool,
) -> TextEditView {
    let r = ime_span(v, range16);
    let e = r.0 + byte_total(ins);
    TextEditView {
        text: splice(v.text, char_at(v.text, r.0), char_at(v.text, r.1), ins),
        selected: (e, e),
        marked: if mark && ins.len() > 0 {
            Some((r.0, e))
        } else {
            None
        },
    }
}

/// After an IME splice with `mark` set and non-empty text, the composing range covers exactly
/// the text that was inserted.
pub proof fn law_ime_marks_inserted_text(v: TextEditView, range16: Option<Range<usize>>, ins: Seq<char>)
    requires
        edit_wf(v),
        ime_range_ordered(v.text, range16),
        ins.len() > 0,
    ensures
        ({
            let w = ime_spec(v, range16, ins, true);
            &&& w.marked matches Some(m)
            &&& w.text.subrange(char_at(w.text, m.0), char_at(w.text, m.1)) == ins
        }),
{
    let cs = v.text;
    let r = ime_span(v, range16);
    match range16 {
        Some(q) => {
            let ks = landing16(cs, q.start as int);
            let ke = landing16(cs, q.end as int);
            lemma_landing_exists(cs, q.start as int);
            lemma_landing_exists(cs, q.end as int);
            lemma_char_at_of(cs, ks);
            lemma_char_at_of(cs, ke);
        },
        None => {},
    }
    lemma_char_at(cs, r.0);
    lemma_char_at(cs, r.1);
    let ka = char_at(cs, r.0);
    let kb = char_at(cs, r.1);
    if ka > kb {
        lemma_offsets_mono(cs, kb, ka);
    }
    let t = splice(cs, ka, kb, ins);
    lemma_splice_offset(cs, ka, kb, ins);
    lemma_char_at_of(t, ka);
    lemma_char_at_of(t, ka + ins.len());
    assert(t.subrange(ka, ka + ins.len()) =~= ins);
}

/// Replace the characters `ka..kb` of `cs` by `ins`.
fn splice_chars(cs: &Vec<char>, ka: usize, kb: usize, ins: &str) -> (s: String)
    requires
        ka <= kb <= cs.len(),
    ensures
        s@ == splice(cs@, ka as int, kb as int, ins@),
{
    let mut s = String::new();
    let mut i: usize = 0;
    while i < ka
        invariant
            i <= ka <= cs.len(),
            s@ == cs@.take(i as int),
        decreases ka - i,
    {
        push_char(&mut s, cs[i]);
        i = i + 1;
        assert(s@ =~= cs@.take(i as int));
    }
    s.append(ins);
    let ghost mid = s@;
    let mut j = kb;
    while j < cs.len()
        invariant
            kb <= j <= cs.len(),
            s@ == mid + cs@.subrange(kb as int, j as int),
        decreases cs.len() - j,
    {
        push_char(&mut s, cs[j]);
        j = j + 1;
        assert(s@ =~= mid + cs@.subrange(kb as int, j as int));
    }
    assert(cs@.subrange(kb as int, cs@.len() as int) =~= cs@.skip(kb as int));
    s
}

/// After a splice, the offset just past the inserted text is the start plus its length, and
/// it is a boundary.
proof fn lemma_splice_offset(cs: Seq<char>, ka: int, kb: int, ins: Seq<char>)
    requires
        0 <= ka <= kb <= cs.len(),
    ensures
        utf8_offset(splice(cs, ka, kb, ins), ka + ins.len()) == utf8_offset(cs, ka) + byte_total(ins),
        utf8_offset(splice(cs, ka, kb, ins), ka) == utf8_offset(cs, ka),
        is_boundary(splice(cs, ka, kb, ins), utf8_offset(cs, ka) + byte_total(ins)),
        is_boundary(splice(cs, ka, kb, ins), utf8_offset(cs, ka) as int),
{
    let x = cs.take(ka);
    let y = ins;
    let z = cs.skip(kb);
    assert(splice(cs, ka, kb, ins) == (x + y) + z);
    lemma_offset_concat(x + y, z, ka + ins.len());
    lemma_offset_concat(x, y, ka + ins.len());
    lemma_offset_concat(x + y, z, ka);
    lemma_offset_concat(x, y, ka);
    lemma_offset_concat(x, cs.skip(ka), ka);
    assert(x + cs.skip(ka) =~= cs);
    let t = splice(cs, ka, kb, ins);
    assert(utf8_offset(t, ka + ins.len()) == utf8_offset(cs, ka) + byte_total(ins));
    assert(0 <= ka + ins.len() <= t.len());
    assert(is_boundary(t, utf8_offset(t, ka + ins.len()) as int));
    assert(is_boundary(t, utf8_offset(t, ka) as int));
}

impl TextEdit {
    /// Start editing `buf` with the caret at its end.
    pub fn new(buf: String) -> (te: Self)
        ensures
            te.buf@ == buf@,
            te@.selected == (byte_total(buf@), byte_total(buf@)),
            te.marked is None,
            edit_wf(te@),
    {
        let n = byte_len(buf.as_str());
        proof {
            lemma_char_at_of(buf@, buf@.len() as int);
        }
        TextEdit { buf, selected: n..n, marked: None }
    }

    /// Replace the selection by `ins` (a caret after it, no composing range).
    fn type_text(&mut self, ins: &str)
        requires
            edit_wf(old(self)@),
        ensures
            final(self)@ == type_over(old(self)@, ins@),
            edit_wf(final(self)@),
    {
        let cs = char_vec(self.buf.as_str());
        let total = byte_len(self.buf.as_str());
        proof {
            lemma_offsets_mono(cs@, 0, cs@.len() as int);
            lemma_char_at(cs@, self.selected.start as int);
            lemma_char_at(cs@, self.selected.end as int);
            if char_at(cs@, self.selected.start as int) > char_at(cs@, self.selected.end as int) {
                lemma_offsets_mono(cs@, char_at(cs@, self.selected.end as int), char_at(cs@, self.selected.start as int));
            }
        }
        let ka = char_index_of(&cs, self.selected.start);
        let kb = char_index_of(&cs, self.selected.end);
        proof {
            law_offsets_injective(cs@, ka as int, char_at(cs@, self.selected.start as int));
            law_offsets_injective(cs@, kb as int, char_at(cs@, self.selected.end as int));
            if ka > kb {
                lemma_offsets_mono(cs@, kb as int, ka as int);
            }
        }
        let s = splice_chars(&cs, ka, kb, ins);
        let n = byte_len(ins);
        let total_s = byte_len(s.as_str());
        proof {
            lemma_splice_offset(cs@, ka as int, kb as int, ins@);
            lemma_offsets_mono(s@, (ka + ins@.len()) as int, s@.len() as int);
        }
        let c = self.selected.start + n;
        self.buf = s;
        self.selected = c..c;
        self.marked = None;
    }
    /// Replace the characters `ka..kb` by `ins`; the new text.
    fn splice_in(&mut self, ka: usize, kb: usize, ins: &str)
        requires
            ka <= kb <= old(self).buf@.len(),
        ensures
            final(self).buf@ == splice(old(self).buf@, ka as int, kb as int, ins@),
            final(self).selected == old(self).selected,
            final(self).marked == old(self).marked,
    {
        let cs = char_vec(self.buf.as_str());
        self.buf = splice_chars(&cs, ka, kb, ins);
    }

    /// Select the whole buffer, `total` being its byte length, and drop the composing range.
    fn select_all(&mut self, total: usize)
        requires
            total == byte_total(old(self).buf@),
        ensures
            final(self).buf@ == old(self).buf@,
            final(self)@.selected == (0int, byte_total(old(self).buf@)),
            final(self).marked is None,
            edit_wf(final(self)@),
    {
        proof {
            lemma_char_at_of(self.buf@, 0);
            lemma_char_at_of(self.buf@, self.buf@.len() as int);
            assert(utf8_offset(self.buf@, 0) == 0);
        }
        self.selected = 0..total;
        self.marked = None;
    }

    /// Splice `new_text` into the buffer in place of the given UTF-16 range (else the composing
    /// range, else the selection) and put the caret after it; with `mark` set, non-empty text
    /// becomes the composing range.
    pub fn apply_ime(&mut self, range_utf16: Option<Range<usize>>, new_text: &str, mark: bool)
        requires
            edit_wf(old(self)@),
            ime_range_ordered(old(self).buf@, range_utf16),
        ensures
            final(self)@ == ime_spec(old(self)@, range_utf16, new_text@, mark),
            edit_wf(final(self)@),
    {
        let ghost v = self@;
        let cs = char_vec(self.buf.as_str());
        let total = byte_len(self.buf.as_str());
        proof {
            lemma_offsets_mono(cs@, 0, cs@.len() as int);
        }
        let range: Range<usize> = match &range_utf16 {
            Some(r) => {
                let out = range_from_utf16(self.buf.as_str(), r);
                proof {
                    let ks = choose|k: int| #[trigger] lands_at_utf16(cs@, r.start as int, k) && out.start == utf8_offset(cs@, k);
                    let ke = choose|k: int| #[trigger] lands_at_utf16(cs@, r.end as int, k) && out.end == utf8_offset(cs@, k);
                    law_landing_unique(cs@, r.start as int, ks, landing16(cs@, r.start as int));
                    law_landing_unique(cs@, r.end as int, ke, landing16(cs@, r.end as int));
                    lemma_char_at_of(cs@, ks);
                    lemma_char_at_of(cs@, ke);
                    lemma_offsets_mono(cs@, ks, ke);
                }
                out
            },
            None => match &self.marked {
                Some(m) => m.start..m.end,
                None => self.selected.start..self.selected.end,
            },
        };
        proof {
            lemma_char_at(cs@, range.start as int);
            lemma_char_at(cs@, range.end as int);
            if char_at(cs@, range.start as int) > char_at(cs@, range.end as int) {
                lemma_offsets_mono(cs@, char_at(cs@, range.end as int), char_at(cs@, range.start as int));
            }
        }
        let ka = char_index_of(&cs, range.start);
        let kb = char_index_of(&cs, range.end);
        proof {
            law_offsets_injective(cs@, ka as int, char_at(cs@, range.start as int));
            law_offsets_injective(cs@, kb as int, char_at(cs@, range.end as int));
            if ka > kb {
                lemma_offsets_mono(cs@, kb as int, ka as int);
            }
        }
        let s = splice_chars(&cs, ka, kb, new_text);
        let n = byte_len(new_text);
        let total_s = byte_len(s.as_str());
        proof {
            lemma_splice_offset(cs@, ka as int, kb as int, new_text@);
            lemma_offsets_mono(s@, (ka + new_text@.len()) as int, s@.len() as int);
            lemma_offsets_mono(s@, 0, ka as int);
        }
        let new_end = range.start + n;
        self.buf = s;
        self.marked = if mark && n > 0 {
            Some(range.start..new_end)
        } else {
            None
        };
        self.selected = new_end..new_end;
        proof {
            if n > 0 {
                assert(new_text@.len() > 0);
            }
            if new_text@.len() > 0 {
                assert(n > 0);
            }
        }
    }

    /// The text of the given UTF-16 range, or `None` when its end comes before its start.
    pub fn text_for_range(&self, range: Range<usize>) -> (t: Option<String>)
        ensures
            ({
                let ks = landing16(self.buf@, range.start as int);
                let ke = landing16(self.buf@, range.end as int);
                match t {
                    Some(x) => ks <= ke && x@ == self.buf@.subrange(ks, ke),
                    None => ke < ks,
                }
            }),
    {
        let cs = char_vec(self.buf.as_str());
        let total = byte_len(self.buf.as_str());
        let s = utf16_to_byte(self.buf.as_str(), range.start);
        let e = utf16_to_byte(self.buf.as_str(), range.end);
        let ghost ks = landing16(cs@, range.start as int);
        let ghost ke = landing16(cs@, range.end as int);
        proof {
            let k1 = choose|k: int| #[trigger] lands_at_utf16(cs@, range.start as int, k) && s == utf8_offset(cs@, k);
            let k2 = choose|k: int| #[trigger] lands_at_utf16(cs@, range.end as int, k) && e == utf8_offset(cs@, k);
            law_landing_unique(cs@, range.start as int, k1, ks);
            law_landing_unique(cs@, range.end as int, k2, ke);
            lemma_offsets_mono(cs@, 0, cs@.len() as int);
            lemma_char_at_of(cs@, ks);
            lemma_char_at_of(cs@, ke);
            if ks < ke {
                lemma_offsets_mono(cs@, ks, ke);
            } else if ke < ks {
                lemma_offsets_mono(cs@, ke, ks);
            }
        }
        if s > e {
            return None;
        }
        let a = char_index_of(&cs, s);
        let b = char_index_of(&cs, e);
        proof {
            law_offsets_injective(cs@, a as int, ks);
            law_offsets_injective(cs@, b as int, ke);
        }
        let mut out = String::new();
        let mut i = a;
        while i < b
            invariant
                a <= i <= b <= cs.len(),
                out@ == cs@.subrange(a as int, i as int),
            decreases b - i,
        {
            push_char(&mut out, cs[i]);
            i = i + 1;
            assert(out@ =~= cs@.subrange(a as int, i as int));
        }
        Some(out)
    }

    /// Handle an editing key. Returns whether the buffer changed in a way that must be shown
    /// again (the edit is live).
    pub fn key(&mut self, key: EditKey) -> (live: bool)
        requires
            edit_wf(old(self)@),
        ensures
            edit_wf(final(self)@),
            (final(self)@, live) == key_spec(old(self)@, key),
    {
        let ghost v = self@;
        let cs = char_vec(self.buf.as_str());
        let total = byte_len(self.buf.as_str());
        let a = self.selected.start;
        let b = self.selected.end;
        proof {
            lemma_offsets_mono(cs@, 0, cs@.len() as int);
            lemma_char_at(cs@, a as int);
            lemma_char_at(cs@, b as int);
        }
        let ka = char_index_of(&cs, a);
        let kb = char_index_of(&cs, b);
        proof {
            law_offsets_injective(cs@, ka as int, char_at(cs@, a as int));
            law_offsets_injective(cs@, kb as int, char_at(cs@, b as int));
            if ka > kb {
                lemma_offsets_mono(cs@, kb as int, ka as int);
            }
            reveal_strlit("");
            assert(""@ =~= Seq::<char>::empty());
        }
        match key {
            EditKey::SelectAll => {
                self.select_all(total);
                false
            },
            EditKey::Tab => {
                self.type_text("  ");
                true
            },
            EditKey::Enter => {
                self.type_text("\n");
                true
            },
            EditKey::Backspace => {
                if a != b {
                    self.type_text("");
                } else if a > 0 {
                    let p = byte_offset_of(&cs, ka - 1);
                    self.splice_in(ka - 1, ka, "");
                    proof {
                        lemma_splice_offset(cs@, ka - 1, ka as int, Seq::empty());
                    }
                    self.selected = p..p;
                    self.marked = None;
                } else {
                    self.marked = None;
                }
                true
            },
            EditKey::Delete => {
                if a != b {
                    self.type_text("");
                } else if kb < cs.len() {
                    self.splice_in(kb, kb + 1, "");
                    proof {
                        lemma_splice_offset(cs@, kb as int, kb + 1, Seq::empty());
                    }
                    self.marked = None;
                } else {
                    self.marked = None;
                }
                true
            },
            EditKey::Left => {
                let c = if a > 0 {
                    byte_offset_of(&cs, ka - 1)
                } else {
                    0
                };
                proof {
                    if a > 0 {
                        lemma_char_at_of(cs@, ka - 1);
                    } else {
                        lemma_char_at_of(cs@, 0);
                    }
                }
                self.selected = c..c;
                false
            },
            EditKey::Right => {
                let c = if kb < cs.len() {
                    byte_offset_of(&cs, kb + 1)
                } else {
                    total
                };
                proof {
                    if kb < cs.len() {
                        lemma_char_at_of(cs@, kb + 1);
                    } else {
                        lemma_char_at_of(cs@, cs@.len() as int);
                    }
                }
                self.selected = c..c;
                false
            },
            EditKey::Up => {
                let c = caret_line_move(self.buf.as_str(), a, -1);
                proof {
                    let k2 = choose|k2: int|
                        0 <= k2 <= cs@.len() && #[trigger] utf8_offset(cs@, k2) == (if a < total {
                            a as int
                        } else {
                            total as int
                        }) && c == utf8_offset(cs@, caret_target(cs@, k2, true));
                    lemma_offsets_mono(cs@, ka as int, cs@.len() as int);
                    law_offsets_injective(cs@, k2, ka as int);
                    assert(k2 == ka);
                    law_caret_stays_in_text(cs@, ka as int, true);
                    lemma_char_at_of(cs@, caret_target(cs@, ka as int, true));
                }
                self.selected = c..c;
                false
            },
            EditKey::Down => {
                let c = caret_line_move(self.buf.as_str(), b, 1);
                proof {
                    let k2 = choose|k2: int|
                        0 <= k2 <= cs@.len() && #[trigger] utf8_offset(cs@, k2) == (if b < total {
                            b as int
                        } else {
                            total as int
                        }) && c == utf8_offset(cs@, caret_target(cs@, k2, false));
                    lemma_offsets_mono(cs@, kb as int, cs@.len() as int);
                    law_offsets_injective(cs@, k2, kb as int);
                    assert(k2 == kb);
                    law_caret_stays_in_text(cs@, kb as int, false);
                    lemma_char_at_of(cs@, caret_target(cs@, kb as int, false));
                }
                self.selected = c..c;
                false
            },
        }
    }

}

/// The text of a paragraph's runs, one after the other.
pub open spec fn runs_text(runs: Seq<RunView>) -> Seq<char>
    decreases runs.len(),
{
    if runs.len() == 0 {
        Seq::empty()
    } else {
        runs_text(runs.drop_last()) + runs.last().text
    }
}

/// Paragraph texts joined by line breaks.
pub open spec fn lines_text(paras: Seq<ParagraphView>) -> Seq<char>
    decreases paras.len(),
{
    if paras.len() == 0 {
        Seq::empty()
    } else if paras.len() == 1 {
        runs_text(paras[0].runs)
    } else {
        lines_text(paras.drop_last()) + seq!['\n'] + runs_text(paras.last().runs)
    }
}

/// The source a text box is edited as: one line per paragraph, each its runs' text.
pub fn typst_source_of(tb: &TextBody) -> (src: String)
    ensures
        src@ == lines_text(tb@.paragraphs),
{
    let mut src = String::new();
    let mut i: usize = 0;
    while i < tb.paragraphs.len()
        invariant
            i <= tb.paragraphs.len(),
            src@ == lines_text(tb@.paragraphs.take(i as int)),
        decreases tb.paragraphs.len() - i,
    {
        let ghost before = src@;
        if i > 0 {
            push_char(&mut src, '\n');
        }
        let p = &tb.paragraphs[i];
        let ghost mid = src@;
        let mut j: usize = 0;
        while j < p.runs.len()
            invariant
                j <= p.runs.len(),
                src@ == mid + runs_text(p@.runs.take(j as int)),
            decreases p.runs.len() - j,
        {
            src.append(p.runs[j].text.as_str());
            j = j + 1;
            assert(p@.runs.take(j as int).drop_last() =~= p@.runs.take(j - 1));
            assert(src@ =~= mid + runs_text(p@.runs.take(j as int)));
        }
        assert(p@.runs.take(p.runs.len() as int) =~= p@.runs);
        assert(tb@.paragraphs.take(i + 1).drop_last() =~= tb@.paragraphs.take(i as int));
        assert(tb@.paragraphs[i as int] == p@);
        if i == 0 {
            assert(src@ =~= lines_text(tb@.paragraphs.take(1)));
        } else {
            assert(src@ =~= lines_text(tb@.paragraphs.take(i + 1)));
        }
        i = i + 1;
    }
    assert(tb@.paragraphs.take(tb.paragraphs.len() as int) =~= tb@.paragraphs);
    src
}

/// The editing keys as edits of the text: Backspace or Delete over a selection erases
/// exactly the selected characters, leaving a caret where the selection began; on a bare
/// caret Backspace erases the character before it (the caret moving back over it) and
/// Delete the character after it (the caret staying); Tab and Enter replace the selection
/// by two spaces or a line break, leaving the caret after them. Each of these edits is
/// live and ends composition; Backspace at the start and Delete at the end erase nothing.
/// The other keys leave the text alone and are not live: Select All selects every byte and
/// ends composition; Left collapses to a caret one character before the selection's start
/// (or at the start), Right one character after its end (or at the end), and Up and Down
/// collapse to a caret on another line.
pub proof fn law_editing_keys(v: TextEditView, ka: int, kb: int)
    requires
        edit_wf(v),
        0 <= ka <= kb <= v.text.len(),
        utf8_offset(v.text, ka) == v.selected.0,
        utf8_offset(v.text, kb) == v.selected.1,
    ensures
        ka < kb ==> key_spec(v, EditKey::Backspace) == (
            TextEditView {
                text: v.text.take(ka) + v.text.skip(kb),
                selected: (v.selected.0, v.selected.0),
                marked: None,
            },
            true,
        ),
        ka < kb ==> key_spec(v, EditKey::Delete) == (
            TextEditView {
                text: v.text.take(ka) + v.text.skip(kb),
                selected: (v.selected.0, v.selected.0),
                marked: None,
            },
            true,
        ),
        ka == kb && ka > 0 ==> key_spec(v, EditKey::Backspace) == (
            TextEditView {
                text: v.text.take(ka - 1) + v.text.skip(ka),
                selected: (utf8_offset(v.text, ka - 1) as int, utf8_offset(v.text, ka - 1) as int),
                marked: None,
            },
            true,
        ),
        ka == kb && kb < v.text.len() ==> key_spec(v, EditKey::Delete) == (
            TextEditView { text: v.text.take(kb) + v.text.skip(kb + 1), selected: v.selected, marked: None },
            true,
        ),
        key_spec(v, EditKey::Tab) == (
            TextEditView {
                text: v.text.take(ka) + seq![' ', ' '] + v.text.skip(kb),
                selected: (v.selected.0 + 2, v.selected.0 + 2),
                marked: None,
            },
            true,
        ),
        key_spec(v, EditKey::Enter) == (
            TextEditView {
                text: v.text.take(ka) + seq!['\n'] + v.text.skip(kb),
                selected: (v.selected.0 + 1, v.selected.0 + 1),
                marked: None,
            },
            true,
        ),
        ka == kb && ka == 0 ==> key_spec(v, EditKey::Backspace) == (
            TextEditView { text: v.text, selected: v.selected, marked: None },
            true,
        ),
        ka == kb && kb == v.text.len() ==> key_spec(v, EditKey::Delete) == (
            TextEditView { text: v.text, selected: v.selected, marked: None },
            true,
        ),
        key_spec(v, EditKey::SelectAll) == (
            TextEditView {
                text: v.text,
                selected: (0, utf8_offset(v.text, v.text.len() as int) as int),
                marked: None,
            },
            false,
        ),
        key_spec(v, EditKey::Left) == (
            TextEditView {
                text: v.text,
                selected: if ka > 0 {
                    (utf8_offset(v.text, ka - 1) as int, utf8_offset(v.text, ka - 1) as int)
                } else {
                    (0, 0)
                },
                marked: v.marked,
            },
            false,
        ),
        key_spec(v, EditKey::Right) == (
            TextEditView {
                text: v.text,
                selected: if kb < v.text.len() {
                    (utf8_offset(v.text, kb + 1) as int, utf8_offset(v.text, kb + 1) as int)
                } else {
                    (v.selected.1, v.selected.1)
                },
                marked: v.marked,
            },
            false,
        ),
        key_spec(v, EditKey::Up).0.text == v.text && key_spec(v, EditKey::Up).0.marked == v.marked
            && key_spec(v, EditKey::Up).0.selected.0 == key_spec(v, EditKey::Up).0.selected.1
            && !key_spec(v, EditKey::Up).1,
        key_spec(v, EditKey::Down).0.text == v.text && key_spec(v, EditKey::Down).0.marked == v.marked
            && key_spec(v, EditKey::Down).0.selected.0 == key_spec(v, EditKey::Down).0.selected.1
            && !key_spec(v, EditKey::Down).1,
{
    lemma_char_at_of(v.text, ka);
    lemma_char_at_of(v.text, kb);
    reveal_strlit("  ");
    reveal_strlit("\n");
    assert("  "@ =~= seq![' ', ' ']);
    assert("\n"@ =~= seq!['\n']);
    reveal_with_fuel(utf8_offset, 3);
    assert(byte_total(seq![' ', ' ']) == 2);
    assert(byte_total(seq!['\n']) == 1);
    assert(byte_total(Seq::<char>::empty()) == 0);
    if ka == kb && ka > 0 {
        lemma_char_at_of(v.text, ka - 1);
    }
}

} // verus!
