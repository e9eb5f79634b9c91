//! Syntax highlighting for one line of the script console: comments, string literals,
//! numbers, keywords and other words, with everything between them kept as plain runs.

use crate::strings::{push_char, str_eq};
use crate::textnav::char_vec;
use vstd::prelude::*;

verus! {

/// Token colours (`0xRRGGBB`).
pub const HL_DEFAULT: u32 = 0xeaeaea;
pub const HL_COMMENT: u32 = 0x6a9955;
pub const HL_STRING: u32 = 0xce9178;
pub const HL_NUMBER: u32 = 0xb5cea8;
pub const HL_KEYWORD: u32 = 0x569cd6;

/// Unicode's alphabetic or numeric characters, which `char::is_alphanumeric` tests.
pub uninterp spec fn is_alphanumeric(c: char) -> bool;

/// Whether `c` is alphabetic or numeric. Calls `char::is_alphanumeric`, whose answer depends
/// on `c` alone.
#[verifier::external_body]
fn alphanumeric(c: char) -> (b: bool)
    ensures
        b == is_alphanumeric(c),
{
    c.is_alphanumeric()
}

/// A character that starts or continues a word.
pub open spec fn word_start(c: char) -> bool {
    is_alphanumeric(c) || c == '_'
}

pub open spec fn word_char(c: char) -> bool {
    word_start(c) || c == '.'
}

/// The script keywords.
pub open spec fn is_keyword(w: Seq<char>) -> bool {
    ||| w == "let"@
    ||| w == "const"@
    ||| w == "fn"@
    ||| w == "for"@
    ||| w == "in"@
    ||| w == "if"@
    ||| w == "else"@
    ||| w == "while"@
    ||| w == "loop"@
    ||| w == "return"@
    ||| w == "break"@
    ||| w == "continue"@
    ||| w == "switch"@
    ||| w == "true"@
    ||| w == "false"@
    ||| w == "throw"@
}

/// The colour of a word: numbers start with an ASCII digit; keywords are tinted; other
/// words are plain.
pub open spec fn word_color(w: Seq<char>) -> u32 {
    if w.len() > 0 && '0' <= w[0] <= '9' {
        HL_NUMBER
    } else if is_keyword(w) {
        HL_KEYWORD
    } else {
        HL_DEFAULT
    }
}

/// Where a string literal whose body starts at `j` ends: just past the closing quote, or at
/// the end of the line; a backslash escapes the character after it.
pub open spec fn string_close(cs: Seq<char>, j: int) -> int
    decreases cs.len() - j,
{
    if j >= cs.len() {
        cs.len() as int
    } else if cs[j] == '\\' && j + 1 < cs.len() {
        string_close(cs, j + 2)
    } else if cs[j] == '"' {
        j + 1
    } else {
        string_close(cs, j + 1)
    }
}

/// Where the word starting at `j` ends.
pub open spec fn word_end(cs: Seq<char>, j: int) -> int
    decreases cs.len() - j,
{
    if j < cs.len() && word_char(cs[j]) {
        word_end(cs, j + 1)
    } else {
        j
    }
}

/// The plain run so far, as a segment when it is not empty.
pub open spec fn flushed(plain: Seq<char>) -> Seq<(Seq<char>, u32)> {
    if plain.len() > 0 {
        seq![(plain, HL_DEFAULT)]
    } else {
        Seq::empty()
    }
}

/// The segments of `cs` from `i`, with `plain` collected before `i`: a `//` comment runs to
/// the end of the line; a string literal runs to its closing quote; a word is coloured by
/// `word_color`; any other character joins the plain run, which is flushed before the next
/// token and at the end.
pub open spec fn segments(cs: Seq<char>, i: int, plain: Seq<char>) -> Seq<(Seq<char>, u32)>
    decreases cs.len() - i,
{
    if i >= cs.len() || i < 0 {
        flushed(plain)
    } else if cs[i] == '/' && i + 1 < cs.len() && cs[i + 1] == '/' {
        flushed(plain) + seq![(cs.skip(i), HL_COMMENT)]
    } else if cs[i] == '"' {
        let e = string_close(cs, i + 1);
        proof {
            lemma_string_close(cs, i + 1);
        }
        flushed(plain) + seq![(cs.subrange(i, e), HL_STRING)] + segments(cs, e, Seq::empty())
    } else if word_start(cs[i]) {
        let e = word_end(cs, i + 1);
        proof {
            lemma_word_end(cs, i + 1);
        }
        let w = cs.subrange(i, e);
        flushed(plain) + seq![(w, word_color(w))] + segments(cs, e, Seq::empty())
    } else {
        segments(cs, i + 1, plain.push(cs[i]))
    }
}

pub proof fn lemma_string_close(cs: Seq<char>, j: int)
    requires
        0 <= j,
    ensures
        j <= string_close(cs, j) <= cs.len() || (j > cs.len() && string_close(cs, j) == cs.len()),
    decreases cs.len() - j,
{
    if j >= cs.len() {
    } else if cs[j] == '\\' && j + 1 < cs.len() {
        lemma_string_close(cs, j + 2);
    } else if cs[j] == '"' {
    } else {
        lemma_string_close(cs, j + 1);
    }
}

pub proof fn lemma_word_end(cs: Seq<char>, j: int)
    requires
        0 <= j <= cs.len(),
    ensures
        j <= word_end(cs, j) <= cs.len(),
    decreases cs.len() - j,
{
    if j < cs.len() && word_char(cs[j]) {
        lemma_word_end(cs, j + 1);
    }
}

/// The concatenated texts of some segments.
pub open spec fn joined(segs: Seq<(Seq<char>, u32)>) -> Seq<char>
    decreases segs.len(),
{
    if segs.len() == 0 {
        Seq::empty()
    } else {
        joined(segs.drop_last()) + segs.last().0
    }
}

proof fn lemma_joined_append(a: Seq<(Seq<char>, u32)>, b: Seq<(Seq<char>, u32)>)
    ensures
        joined(a + b) == joined(a) + joined(b),
    decreases b.len(),
{
    if b.len() == 0 {
        assert(a + b =~= a);
        assert(joined(a) + joined(b) =~= joined(a));
    } else {
        lemma_joined_append(a, b.drop_last());
        assert((a + b).drop_last() =~= a + b.drop_last());
        assert(joined(a) + joined(b.drop_last()) + b.last().0 =~= joined(a) + (joined(
            b.drop_last(),
        ) + b.last().0));
    }
}

proof fn lemma_joined_one(s: Seq<char>, c: u32)
    ensures
        joined(seq![(s, c)]) == s,
{
    let one = seq![(s, c)];
    assert(one.drop_last() =~= Seq::<(Seq<char>, u32)>::empty());
    assert(one.last() == (s, c));
    assert(joined(one.drop_last()) == Seq::<char>::empty());
    assert(joined(one) == joined(one.drop_last()) + one.last().0);
    assert(Seq::<char>::empty() + s =~= s);
}

proof fn lemma_joined_flushed(p: Seq<char>)
    ensures
        joined(flushed(p)) == p,
{
    if p.len() > 0 {
        lemma_joined_one(p, HL_DEFAULT);
    } else {
        assert(p =~= Seq::<char>::empty());
    }
}

/// The segments of a line hold all of it, in order.
proof fn lemma_segments_join(cs: Seq<char>, i: int, plain: Seq<char>)
    requires
        0 <= i <= cs.len(),
    ensures
        joined(segments(cs, i, plain)) == plain + cs.skip(i),
    decreases cs.len() - i,
{
    lemma_joined_flushed(plain);
    if i >= cs.len() {
        assert(cs.skip(i) =~= Seq::<char>::empty());
        assert(plain + cs.skip(i) =~= plain);
    } else if cs[i] == '/' && i + 1 < cs.len() && cs[i + 1] == '/' {
        lemma_joined_append(flushed(plain), seq![(cs.skip(i), HL_COMMENT)]);
        lemma_joined_one(cs.skip(i), HL_COMMENT);
    } else if cs[i] == '"' {
        let e = string_close(cs, i + 1);
        lemma_string_close(cs, i + 1);
        let tok = seq![(cs.subrange(i, e), HL_STRING)];
        lemma_segments_join(cs, e, Seq::empty());
        lemma_joined_append(flushed(plain) + tok, segments(cs, e, Seq::empty()));
        lemma_joined_append(flushed(plain), tok);
        lemma_joined_one(cs.subrange(i, e), HL_STRING);
        assert(plain + cs.subrange(i, e) + (Seq::<char>::empty() + cs.skip(e)) =~= plain + cs.skip(
            i,
        ));
    } else if word_start(cs[i]) {
        let e = word_end(cs, i + 1);
        lemma_word_end(cs, i + 1);
        let w = cs.subrange(i, e);
        let tok = seq![(w, word_color(w))];
        lemma_segments_join(cs, e, Seq::empty());
        lemma_joined_append(flushed(plain) + tok, segments(cs, e, Seq::empty()));
        lemma_joined_append(flushed(plain), tok);
        lemma_joined_one(w, word_color(w));
        assert(plain + w + (Seq::<char>::empty() + cs.skip(e)) =~= plain + cs.skip(i));
    } else {
        lemma_segments_join(cs, i + 1, plain.push(cs[i]));
        assert(plain.push(cs[i]) + cs.skip(i + 1) =~= plain + cs.skip(i));
    }
}

/// Highlighting loses and adds nothing: the segments of a line, put back together, are the
/// line.
pub proof fn law_highlight_keeps_the_line(line: Seq<char>)
    ensures
        joined(segments(line, 0, Seq::empty())) == line,
{
    lemma_segments_join(line, 0, Seq::empty());
    assert(Seq::<char>::empty() + line.skip(0) =~= line);
}

fn collect(cs: &Vec<char>, from: usize, to: usize) -> (s: String)
    requires
        from <= to <= cs.len(),
    ensures
        s@ == cs@.subrange(from as int, to as int),
{
    let mut s = String::new();
    let mut i = from;
    while i < to
        invariant
            from <= i <= to <= cs.len(),
            s@ == cs@.subrange(from as int, i as int),
        decreases to - i,
    {
        push_char(&mut s, cs[i]);
        i = i + 1;
        assert(s@ =~= cs@.subrange(from as int, i as int));
    }
    s
}

fn keyword(w: &str) -> (b: bool)
    ensures
        b == is_keyword(w@),
{
    str_eq(w, "let") || str_eq(w, "const") || str_eq(w, "fn") || str_eq(w, "for") || str_eq(
        w,
        "in",
    ) || str_eq(w, "if") || str_eq(w, "else") || str_eq(w, "while") || str_eq(w, "loop")
        || str_eq(w, "return") || str_eq(w, "break") || str_eq(w, "continue") || str_eq(
        w,
        "switch",
    ) || str_eq(w, "true") || str_eq(w, "false") || str_eq(w, "throw")
}

/// Split one source line into `(text, colour)` segments for highlighting: `//` comments,
/// string literals, numbers, keywords and other words; consecutive other characters form
/// one plain segment.
pub fn highlight_rhai(line: &str) -> (segs: Vec<(String, u32)>)
    ensures
        segs@.map_values(|p: (String, u32)| (p.0@, p.1)) == segments(line@, 0, Seq::empty()),
{
    let cs = char_vec(line);
    let n = cs.len();
    let mut out: Vec<(String, u32)> = Vec::new();
    let mut plain = String::new();
    let mut i: usize = 0;
    while i < n
        invariant_except_break
            n == cs@.len(),
            cs@ == line@,
            i <= n,
            out@.map_values(|p: (String, u32)| (p.0@, p.1)) + segments(cs@, i as int, plain@)
                == segments(cs@, 0, Seq::empty()),
        ensures
            out@.map_values(|p: (String, u32)| (p.0@, p.1)) + flushed(plain@) == segments(
                cs@,
                0,
                Seq::empty(),
            ),
        decreases n - i,
    {
        let ghost before = out@.map_values(|p: (String, u32)| (p.0@, p.1));
        let ghost p0 = plain@;
        let c = cs[i];
        if c == '/' && i + 1 < n && cs[i + 1] == '/' {
            if plain.as_str().unicode_len() > 0 {
                out.push((plain, HL_DEFAULT));
                plain = String::new();
            }
            let t = collect(&cs, i, n);
            out.push((t, HL_COMMENT));
            proof {
                assert(cs@.subrange(i as int, n as int) =~= cs@.skip(i as int));
                assert(out@.map_values(|p: (String, u32)| (p.0@, p.1)) =~= before + flushed(p0)
                    + seq![(cs@.skip(i as int), HL_COMMENT)]);
                assert(plain@ =~= Seq::<char>::empty());
                assert(flushed(plain@) =~= Seq::<(Seq<char>, u32)>::empty());
            }
            break;
        }
        if c == '"' {
            if plain.as_str().unicode_len() > 0 {
                out.push((plain, HL_DEFAULT));
                plain = String::new();
            }
            let start = i;
            i = i + 1;
            while i < n
                invariant_except_break
                    n == cs@.len(),
                    start < i <= n,
                    string_close(cs@, start + 1) == string_close(cs@, i as int),
                ensures
                    start < i <= n,
                    string_close(cs@, start + 1) == i,
                decreases n - i,
            {
                if cs[i] == '\\' && i + 1 < n {
                    i = i + 2;
                    continue;
                }
                if cs[i] == '"' {
                    i = i + 1;
                    break;
                }
                i = i + 1;
            }
            let t = collect(&cs, start, i);
            out.push((t, HL_STRING));
            proof {
                assert(out@.map_values(|p: (String, u32)| (p.0@, p.1)) =~= before + flushed(p0)
                    + seq![(cs@.subrange(start as int, i as int), HL_STRING)]);
                assert(plain@ =~= Seq::<char>::empty());
            }
            continue;
        }
        if alphanumeric(c) || c == '_' {
            if plain.as_str().unicode_len() > 0 {
                out.push((plain, HL_DEFAULT));
                plain = String::new();
            }
            let start = i;
            i = i + 1;
            while i < n && (alphanumeric(cs[i]) || cs[i] == '_' || cs[i] == '.')
                invariant
                    n == cs@.len(),
                    start < i <= n,
                    word_end(cs@, start + 1) == word_end(cs@, i as int),
                decreases n - i,
            {
                i = i + 1;
            }
            let w = collect(&cs, start, i);
            let first = cs[start];
            let color = if '0' <= first && first <= '9' {
                HL_NUMBER
            } else if keyword(w.as_str()) {
                HL_KEYWORD
            } else {
                HL_DEFAULT
            };
            out.push((w, color));
            proof {
                let ws = cs@.subrange(start as int, i as int);
                assert(ws[0] == first);
                assert(out@.map_values(|p: (String, u32)| (p.0@, p.1)) =~= before + flushed(p0)
                    + seq![(ws, word_color(ws))]);
                assert(plain@ =~= Seq::<char>::empty());
            }
            continue;
        }
        push_char(&mut plain, c);
        i = i + 1;
    }
    if plain.as_str().unicode_len() > 0 {
        out.push((plain, HL_DEFAULT));
    } else {
        proof {
            assert(out@.map_values(|p: (String, u32)| (p.0@, p.1)) + flushed(plain@) =~= out@.map_values(
                |p: (String, u32)| (p.0@, p.1),
            ));
        }
    }
    out
}

} // verus!
