//! Names derived from document paths, and the text rules for reading a file path off the
//! clipboard: trimming, `file://` URIs and their percent-escapes.

use crate::commands::hex_value;
use crate::strings::{lossy_decode, push_char, utf8_lossy, utf8_lossy_chars};
use crate::textnav::char_vec;
use vstd::prelude::*;
use vstd::string::StringSliceAdditionalSpecFns;

verus! {

/// Unicode `White_Space`, which `char::is_whitespace` tests.
pub open spec fn is_white_space(c: char) -> bool {
    let u = c as u32;
    ||| 0x09 <= u <= 0x0D
    ||| u == 0x20
    ||| u == 0x85
    ||| u == 0xA0
    ||| u == 0x1680
    ||| 0x2000 <= u <= 0x200A
    ||| u == 0x2028
    ||| u == 0x2029
    ||| u == 0x202F
    ||| u == 0x205F
    ||| u == 0x3000
}

/// `cs[start..end]` is `cs` with its leading and trailing white space removed.
pub open spec fn trims_to(cs: Seq<char>, start: int, end: int) -> bool {
    &&& 0 <= start <= end <= cs.len()
    &&& forall|i: int| 0 <= i < start ==> is_white_space(#[trigger] cs[i])
    &&& forall|i: int| end <= i < cs.len() ==> is_white_space(#[trigger] cs[i])
    &&& start < end ==> !is_white_space(cs[start]) && !is_white_space(cs[end - 1])
}

pub(crate) fn white_space(c: char) -> (b: bool)
    ensures
        b == is_white_space(c),
{
    let u = c as u32;
    (0x09 <= u && u <= 0x0D) || u == 0x20 || u == 0x85 || u == 0xA0 || u == 0x1680 || (0x2000
        <= u && u <= 0x200A) || u == 0x2028 || u == 0x2029 || u == 0x202F || u == 0x205F || u
        == 0x3000
}

/// The bounds of `cs[from..to]` with white space trimmed from both ends (what `str::trim`
/// keeps).
pub(crate) fn trim_bounds(cs: &Vec<char>, from: usize, to: usize) -> (r: (usize, usize))
    requires
        from <= to <= cs.len(),
    ensures
        trims_to(cs@.subrange(from as int, to as int), r.0 - from, r.1 - from),
        from <= r.0 <= r.1 <= to,
{
    let ghost sub = cs@.subrange(from as int, to as int);
    let mut start = from;
    while start < to && white_space(cs[start])
        invariant
            from <= start <= to <= cs.len(),
            sub == cs@.subrange(from as int, to as int),
            forall|i: int| 0 <= i < start - from ==> is_white_space(#[trigger] sub[i]),
        decreases to - start,
    {
        start = start + 1;
    }
    let mut end = to;
    while end > start && white_space(cs[end - 1])
        invariant
            from <= start <= end <= to <= cs.len(),
            sub == cs@.subrange(from as int, to as int),
            start < to ==> !is_white_space(cs@[start as int]),
            forall|i: int| end - from <= i < to - from ==> is_white_space(#[trigger] sub[i]),
        decreases end - start,
    {
        end = end - 1;
    }
    (start, end)
}

/// Autosave file path for `doc_path`: the document path with `.autosave` appended to its
/// name (`deck.hayate` -> `deck.hayate.autosave`).
pub fn autosave_path(doc_path: &str) -> (p: String)
    ensures
        p@ == doc_path@ + ".autosave"@,
{
    let mut p = doc_path.to_owned();
    p.append(".autosave");
    p
}

/// Index of the last `'.'` among the first `n` characters that comes after every `'/'`
/// among them (a dot of the file name, not of a directory), or -1.
pub open spec fn last_dot_before(cs: Seq<char>, n: int) -> int
    decreases n,
{
    if n <= 0 {
        -1
    } else if cs[n - 1] == '.' {
        n - 1
    } else if cs[n - 1] == '/' {
        -1
    } else {
        last_dot_before(cs, n - 1)
    }
}

/// The document path with its file name's extension (the text after the file name's last
/// `.`) replaced by `.pdf`, or with `.pdf` appended when the file name has no `.`.
pub open spec fn pdf_path_spec(doc: Seq<char>) -> Seq<char> {
    let d = last_dot_before(doc, doc.len() as int);
    if d >= 0 {
        doc.take(d) + ".pdf"@
    } else {
        doc + ".pdf"@
    }
}

/// Replace (or append) a `.pdf` extension on the document path's file name.
pub fn pdf_path(doc: &str) -> (p: String)
    ensures
        p@ == pdf_path_spec(doc@),
{
    let cs = char_vec(doc);
    let mut n = cs.len();
    while n > 0 && cs[n - 1] != '.' && cs[n - 1] != '/'
        invariant
            cs@ == doc@,
            n <= cs.len(),
            last_dot_before(doc@, doc@.len() as int) == last_dot_before(doc@, n as int),
        decreases n,
    {
        n = n - 1;
    }
    let found = n > 0 && cs[n - 1] == '.';
    let stem_len = if found {
        n - 1
    } else {
        cs.len()
    };
    let mut p = String::new();
    let mut i: usize = 0;
    while i < stem_len
        invariant
            cs@ == doc@,
            stem_len <= cs.len(),
            i <= stem_len,
            p@ == doc@.take(i as int),
        decreases stem_len - i,
    {
        push_char(&mut p, cs[i]);
        i = i + 1;
        assert(p@ =~= doc@.take(i as int));
    }
    assert(doc@.take(cs.len() as int) =~= doc@);
    p.append(".pdf");
    p
}

/// The PDF path ends in `.pdf`, keeps the document path up to its file name's extension,
/// and is its own PDF path: exporting next to an exported PDF names the same file.
pub proof fn law_pdf_path(doc: Seq<char>)
    ensures
        pdf_path_spec(doc).len() >= 4,
        pdf_path_spec(doc).skip(pdf_path_spec(doc).len() - 4) == ".pdf"@,
        doc.take(pdf_path_spec(doc).len() - 4) == pdf_path_spec(doc).take(pdf_path_spec(doc).len() - 4),
        pdf_path_spec(pdf_path_spec(doc)) == pdf_path_spec(doc),
{
    reveal_strlit(".pdf");
    let p = pdf_path_spec(doc);
    let d = last_dot_before(doc, doc.len() as int);
    lemma_last_dot_bounds(doc, doc.len() as int);
    let stem = if d >= 0 { doc.take(d) } else { doc };
    assert(p == stem + ".pdf"@);
    let n = p.len() as int;
    assert(p[n - 1] == 'f');
    assert(p[n - 2] == 'd');
    assert(p[n - 3] == 'p');
    assert(p[n - 4] == '.');
    assert(last_dot_before(p, n - 3) == n - 4);
    assert(last_dot_before(p, n - 2) == n - 4);
    assert(last_dot_before(p, n - 1) == n - 4);
    assert(last_dot_before(p, n) == n - 4);
    assert(p.take(n - 4) =~= stem);
    assert(p.skip(n - 4) =~= ".pdf"@);
    assert(pdf_path_spec(p) =~= p);
}

/// The dot found lies within the first `n` characters.
proof fn lemma_last_dot_bounds(cs: Seq<char>, n: int)
    requires
        0 <= n <= cs.len(),
    ensures
        -1 <= last_dot_before(cs, n) < n,
    decreases n,
{
    if n > 0 && cs[n - 1] != '.' && cs[n - 1] != '/' {
        lemma_last_dot_bounds(cs, n - 1);
    }
}

/// The bytes after percent-decoding: each `%` followed by two hex digits becomes the byte
/// they spell; any other byte, a malformed escape among them, stays as it is.
pub open spec fn percent_bytes(b: Seq<u8>) -> Seq<u8>
    decreases b.len(),
{
    if b.len() == 0 {
        Seq::empty()
    } else if b[0] == 37 && b.len() >= 3 && hex_value(b[1]) is Some && hex_value(b[2]) is Some {
        seq![(hex_value(b[1]).unwrap() * 16 + hex_value(b[2]).unwrap()) as u8] + percent_bytes(
            b.skip(3),
        )
    } else {
        seq![b[0]] + percent_bytes(b.skip(1))
    }
}

fn hex_digit_of(b: u8) -> (r: Option<u8>)
    ensures
        r == hex_value(b),
{
    if 48 <= b && b <= 57 {
        Some(b - 48)
    } else if 97 <= b && b <= 102 {
        Some(b - 87)
    } else if 65 <= b && b <= 70 {
        Some(b - 55)
    } else {
        None
    }
}

/// Minimal percent-decoding for `file://` URIs (`%20` -> space). Malformed escapes are left
/// untouched; bytes that do not form UTF-8 are replaced as `String::from_utf8_lossy` does.
pub fn percent_decode(s: &str) -> (d: String)
    ensures
        d@ == utf8_lossy_chars(percent_bytes(s.spec_bytes())),
        d@ == lossy_decode(percent_bytes(s.spec_bytes())),
{
    let bytes = s.as_bytes();
    let mut out: Vec<u8> = Vec::new();
    let mut i: usize = 0;
    assert(bytes@.skip(0) =~= bytes@);
    while i < bytes.len()
        invariant
            bytes@ == s.spec_bytes(),
            i <= bytes.len(),
            out@ + percent_bytes(bytes@.skip(i as int)) == percent_bytes(bytes@),
        decreases bytes.len() - i,
    {
        let ghost rest = bytes@.skip(i as int);
        if bytes[i] == 37 && bytes.len() - i > 2 {
            let hi = hex_digit_of(bytes[i + 1]);
            let lo = hex_digit_of(bytes[i + 2]);
            match (hi, lo) {
                (Some(h), Some(l)) => {
                    out.push(h * 16 + l);
                    proof {
                        assert(rest.skip(3) =~= bytes@.skip(i + 3));
                        assert(out@ + percent_bytes(bytes@.skip(i + 3)) =~= percent_bytes(bytes@));
                    }
                    i = i + 3;
                    continue;
                },
                _ => {},
            }
        }
        out.push(bytes[i]);
        proof {
            assert(rest.skip(1) =~= bytes@.skip(i + 1));
            assert(out@ + percent_bytes(bytes@.skip(i + 1)) =~= percent_bytes(bytes@));
        }
        i = i + 1;
    }
    assert(bytes@.skip(i as int) =~= Seq::<u8>::empty());
    assert(out@ =~= percent_bytes(bytes@));
    utf8_lossy(out.as_slice())
}

/// The first line of `cs` (up to the first `'\n'`, without the `'\r'` of a `"\r\n"`), or
/// `None` when `cs` is empty: what `str::lines` yields first.
pub open spec fn first_line(cs: Seq<char>) -> Option<Seq<char>> {
    if cs.len() == 0 {
        None
    } else {
        let nl = crate::textnav::next_newline_from(cs, 0);
        let line = cs.take(nl);
        if nl < cs.len() && line.len() > 0 && line.last() == '\r' {
            Some(line.drop_last())
        } else {
            Some(line)
        }
    }
}

/// `cs` without a leading `file://`.
pub open spec fn strip_file_scheme(cs: Seq<char>) -> Seq<char> {
    if cs.len() >= 7 && cs.take(7) == "file://"@ {
        cs.skip(7)
    } else {
        cs
    }
}

/// End of the first line of non-empty `cs`.
fn first_line_end(cs: &Vec<char>) -> (end: usize)
    requires
        cs.len() > 0,
    ensures
        end <= cs.len(),
        first_line(cs@) == Some(cs@.take(end as int)),
{
    let mut nl: usize = 0;
    while nl < cs.len() && cs[nl] != '\n'
        invariant
            nl <= cs.len(),
            crate::textnav::next_newline_from(cs@, 0) == crate::textnav::next_newline_from(
                cs@,
                nl as int,
            ),
        decreases cs.len() - nl,
    {
        nl = nl + 1;
    }
    proof {
        if nl < cs.len() {
            assert(crate::textnav::next_newline_from(cs@, nl as int) == nl);
        }
    }
    let ghost raw_line = cs@.take(nl as int);
    if nl < cs.len() && nl > 0 && cs[nl - 1] == '\r' {
        assert(raw_line.drop_last() =~= cs@.take(nl - 1));
        nl - 1
    } else {
        nl
    }
}

/// Where `cs[a..b]` starts once a leading `file://` is dropped.
fn scheme_end(cs: &Vec<char>, a: usize, b: usize) -> (start: usize)
    requires
        a <= b <= cs.len(),
    ensures
        a <= start <= b,
        strip_file_scheme(cs@.subrange(a as int, b as int)) == cs@.subrange(start as int, b as int),
{
    let ghost t = cs@.subrange(a as int, b as int);
    let scheme = b - a >= 7 && cs[a] == 'f' && cs[a + 1] == 'i' && cs[a + 2] == 'l' && cs[a + 3]
        == 'e' && cs[a + 4] == ':' && cs[a + 5] == '/' && cs[a + 6] == '/';
    let start = if scheme {
        a + 7
    } else {
        a
    };
    proof {
        reveal_strlit("file://");
        let f = "file://"@;
        assert(f[0] == 'f' && f[1] == 'i' && f[2] == 'l' && f[3] == 'e');
        assert(f[4] == ':' && f[5] == '/' && f[6] == '/');
        if scheme {
            assert(t.take(7) =~= f);
        } else if t.len() >= 7 && t.take(7) == f {
            assert(t[0] == t.take(7)[0] && t[1] == t.take(7)[1] && t[2] == t.take(7)[2]);
            assert(t[3] == t.take(7)[3] && t[4] == t.take(7)[4] && t[5] == t.take(7)[5]);
            assert(t[6] == t.take(7)[6]);
        }
        assert(strip_file_scheme(t) =~= cs@.subrange(start as int, b as int));
    }
    start
}

/// `cs[a..b]` as a string.
fn collect_chars(cs: &Vec<char>, a: usize, b: usize) -> (s: String)
    requires
        a <= b <= cs.len(),
    ensures
        s@ == cs@.subrange(a as int, b as int),
{
    let mut s = String::new();
    let mut i = a;
    while i < b
        invariant
            a <= i <= b <= cs.len(),
            s@ == cs@.subrange(a as int, i as int),
        decreases b - i,
    {
        push_char(&mut s, cs[i]);
        i = i + 1;
        assert(s@ =~= cs@.subrange(a as int, i as int));
    }
    s
}

/// The path text that clipboard text names: its first line, trimmed, without a `file://`
/// scheme, percent-decoded. Whether that path is an existing image file is for the caller
/// to ask the file system.
pub fn clipboard_path_text(text: &str) -> (p: Option<String>)
    ensures
        first_line(text@) is None <==> p is None,
        p is Some ==> exists|a: int, b: int|
            #[trigger] trims_to(first_line(text@).unwrap(), a, b) && p.unwrap()@ == utf8_lossy_chars(
                percent_bytes(
                    vstd::utf8::encode_utf8(
                        strip_file_scheme(first_line(text@).unwrap().subrange(a, b)),
                    ),
                ),
            ),
{
    let cs = char_vec(text);
    if cs.len() == 0 {
        return None;
    }
    let line_end = first_line_end(&cs);
    let ghost line = cs@.take(line_end as int);
    let (a, b) = trim_bounds(&cs, 0, line_end);
    assert(cs@.subrange(0, line_end as int) =~= line);
    assert(line.subrange(a as int, b as int) =~= cs@.subrange(a as int, b as int));
    let start = scheme_end(&cs, a, b);
    let raw = collect_chars(&cs, start, b);
    let raw_str = raw.as_str();
    let decoded = percent_decode(raw_str);
    assert(first_line(text@) == Some(line));
    assert(trims_to(line, a as int, b as int));
    assert(raw_str@ == strip_file_scheme(line.subrange(a as int, b as int)));
    assert(raw_str.spec_bytes() == vstd::utf8::encode_utf8(strip_file_scheme(line.subrange(a as int, b as int))));
    let ghost want = utf8_lossy_chars(percent_bytes(vstd::utf8::encode_utf8(strip_file_scheme(line.subrange(a as int, b as int)))));
    assert(decoded@ == want);
    let r = Some(decoded);
    assert(r.unwrap()@ == want);
    assert(trims_to(first_line(text@).unwrap(), a as int, b as int));
    r
}

/// `cs` with its leading and trailing white space removed (what `str::trim` keeps).
pub open spec fn trimmed(cs: Seq<char>) -> Seq<char> {
    let ab = choose|ab: (int, int)| trims_to(cs, ab.0, ab.1);
    cs.subrange(ab.0, ab.1)
}

/// Trimming keeps one text, whichever bounds describe it.
pub proof fn lemma_trimmed(cs: Seq<char>, a: int, b: int)
    requires
        trims_to(cs, a, b),
    ensures
        trimmed(cs) == cs.subrange(a, b),
{
    let w = (a, b);
    assert(trims_to(cs, w.0, w.1));
    let ab = choose|ab: (int, int)| trims_to(cs, ab.0, ab.1);
    assert(trims_to(cs, ab.0, ab.1));
    let (a2, b2) = ab;
    if a < b && a2 < b2 {
        assert(a == a2) by {
            if a < a2 {
                assert(is_white_space(cs[a]));
            }
            if a2 < a {
                assert(is_white_space(cs[a2]));
            }
        }
        assert(b == b2) by {
            if b < b2 {
                assert(is_white_space(cs[b2 - 1]));
            }
            if b2 < b {
                assert(is_white_space(cs[b - 1]));
            }
        }
    } else if a < b {
        assert(is_white_space(cs[a])) by {
            if a < a2 {
            } else {
                assert(a >= b2);
            }
        }
    } else if a2 < b2 {
        assert(is_white_space(cs[a2])) by {
            if a2 < a {
            } else {
                assert(a2 >= b);
            }
        }
    }
    assert(cs.subrange(a, b) =~= cs.subrange(a2, b2));
}

/// How many recent presentations the home screen keeps.
pub const MAX_RECENTS: usize = 12;

/// The entries of `list` other than `path`, in order.
pub open spec fn without(list: Seq<Seq<char>>, path: Seq<char>) -> Seq<Seq<char>>
    decreases list.len(),
{
    if list.len() == 0 {
        Seq::empty()
    } else {
        let rest = without(list.drop_last(), path);
        if list.last() == path {
            rest
        } else {
            rest.push(list.last())
        }
    }
}

/// The recent list after opening `path`: `path` first, then the others in their order,
/// without repeats of `path`, cut to the first `MAX_RECENTS`.
pub open spec fn recents_after(list: Seq<Seq<char>>, path: Seq<char>) -> Seq<Seq<char>> {
    let all = seq![path] + without(list, path);
    if all.len() > MAX_RECENTS {
        all.take(MAX_RECENTS as int)
    } else {
        all
    }
}

/// The entries of `without(list, path)` are the entries of `list` other than `path`.
proof fn lemma_without(list: Seq<Seq<char>>, path: Seq<char>)
    ensures
        without(list, path).len() <= list.len(),
        forall|i: int| 0 <= i < without(list, path).len() ==> #[trigger] without(list, path)[i] != path
            && list.contains(without(list, path)[i]),
        forall|j: int| 0 <= j < list.len() && #[trigger] list[j] != path ==> without(list, path).contains(list[j]),
    decreases list.len(),
{
    if list.len() > 0 {
        let init = list.drop_last();
        lemma_without(init, path);
        let rest = without(init, path);
        let w = without(list, path);
        assert forall|i: int| 0 <= i < w.len() implies #[trigger] w[i] != path && list.contains(w[i]) by {
            if i < rest.len() {
                assert(w[i] == rest[i]);
                let k = choose|k: int| 0 <= k < init.len() && init[k] == rest[i];
                assert(list[k] == init[k]);
            } else {
                assert(w[i] == list.last());
                assert(list[list.len() - 1] == list.last());
            }
        }
        assert forall|j: int| 0 <= j < list.len() && #[trigger] list[j] != path implies w.contains(list[j]) by {
            if j < list.len() - 1 {
                assert(init[j] == list[j]);
                let k = choose|k: int| 0 <= k < rest.len() && rest[k] == init[j];
                assert(w[k] == rest[k]);
            } else {
                assert(w[w.len() - 1] == list.last());
            }
        }
    }
}

/// Opening a presentation puts its path first in the recent list, once; the list stays
/// within `MAX_RECENTS`; every other entry was in the list before; and when the list had
/// room, every other path it held is kept.
pub proof fn law_recents(list: Seq<Seq<char>>, path: Seq<char>)
    ensures
        recents_after(list, path).len() >= 1,
        recents_after(list, path)[0] == path,
        recents_after(list, path).len() <= MAX_RECENTS,
        forall|i: int| 1 <= i < recents_after(list, path).len() ==> #[trigger] recents_after(list, path)[i] != path
            && list.contains(recents_after(list, path)[i]),
        list.len() < MAX_RECENTS ==> forall|j: int| 0 <= j < list.len() && #[trigger] list[j] != path
            ==> recents_after(list, path).contains(list[j]),
{
    lemma_without(list, path);
    let w = without(list, path);
    let all = seq![path] + w;
    let r = recents_after(list, path);
    assert forall|i: int| 1 <= i < r.len() implies #[trigger] r[i] != path && list.contains(r[i]) by {
        assert(r[i] == all[i]);
        assert(all[i] == w[i - 1]);
    }
    if list.len() < MAX_RECENTS {
        assert(r == all);
        assert forall|j: int| 0 <= j < list.len() && #[trigger] list[j] != path implies r.contains(list[j]) by {
            let k = choose|k: int| 0 <= k < w.len() && w[k] == list[j];
            assert(r[k + 1] == w[k]);
        }
    }
}

/// Record `path` as the most recent presentation in `list` (most recent first).
pub fn remember_recent(list: Vec<String>, path: &str) -> (r: Vec<String>)
    ensures
        r@.map_values(|s: String| s@) == recents_after(list@.map_values(|s: String| s@), path@),
{
    let ghost lv = list@.map_values(|s: String| s@);
    let mut out: Vec<String> = Vec::new();
    out.push(path.to_owned());
    let mut i: usize = 0;
    while i < list.len()
        invariant
            i <= list@.len(),
            lv == list@.map_values(|s: String| s@),
            out@.map_values(|s: String| s@) == seq![path@] + without(lv.take(i as int), path@),
        decreases list.len() - i,
    {
        proof {
            assert(lv.take(i + 1).drop_last() =~= lv.take(i as int));
            assert(lv.take(i + 1).last() == list@[i as int]@);
        }
        let ghost before = out@;
        if !crate::strings::str_eq(list[i].as_str(), path) {
            let c = list[i].clone();
            out.push(c);
            assert(out@.map_values(|s: String| s@) =~= before.map_values(|s: String| s@).push(
                list@[i as int]@,
            ));
        }
        i = i + 1;
        assert(out@.map_values(|s: String| s@) =~= seq![path@] + without(lv.take(i as int), path@));
    }
    assert(lv.take(list.len() as int) =~= lv);
    if out.len() > MAX_RECENTS {
        out.truncate(MAX_RECENTS);
        assert(out@.map_values(|s: String| s@) =~= (seq![path@] + without(lv, path@)).take(
            MAX_RECENTS as int,
        ));
    }
    out
}

} // verus!
