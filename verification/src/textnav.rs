//! Caret arithmetic on text: conversions between UTF-8 byte offsets and UTF-16
//! code-unit offsets, stepping over one character, and moving the caret one line
//! up or down while keeping its column.
//!
//! Every offset is modelled over the string's characters `s@`: the byte offset of
//! the `k`-th character is `utf8_offset(s@, k)`, its UTF-16 offset `utf16_offset(s@, k)`.

use std::ops::Range;
use vstd::prelude::*;

verus! {

/// Bytes that `c` takes in UTF-8.
pub open spec fn utf8_width(c: char) -> nat {
    if (c as u32) < 0x80 {
        1
    } else if (c as u32) < 0x800 {
        2
    } else if (c as u32) < 0x10000 {
        3
    } else {
        4
    }
}

/// Code units that `c` takes in UTF-16.
pub open spec fn utf16_width(c: char) -> nat {
    if (c as u32) < 0x10000 {
        1
    } else {
        2
    }
}

/// UTF-8 byte offset of the `k`-th character of `cs`.
pub open spec fn utf8_offset(cs: Seq<char>, k: int) -> nat
    decreases k,
{
    if k <= 0 {
        0
    } else {
        utf8_offset(cs, k - 1) + utf8_width(cs[k - 1])
    }
}

/// UTF-16 code-unit offset of the `k`-th character of `cs`.
pub open spec fn utf16_offset(cs: Seq<char>, k: int) -> nat
    decreases k,
{
    if k <= 0 {
        0
    } else {
        utf16_offset(cs, k - 1) + utf16_width(cs[k - 1])
    }
}

/// `byte` is the offset of a character boundary of `cs` (the end counts).
pub open spec fn is_boundary(cs: Seq<char>, byte: int) -> bool {
    exists|k: int| 0 <= k <= cs.len() && #[trigger] utf8_offset(cs, k) == byte
}

/// `k` is the first character whose byte offset reaches `byte` (or the end, when none does).
pub open spec fn lands_at_byte(cs: Seq<char>, byte: int, k: int) -> bool {
    &&& 0 <= k <= cs.len()
    &&& forall|j: int| 0 <= j < k ==> utf8_offset(cs, j) < byte
    &&& k < cs.len() ==> utf8_offset(cs, k) >= byte
}

/// `k` is the first character whose UTF-16 offset reaches `off` (or the end, when none does).
pub open spec fn lands_at_utf16(cs: Seq<char>, off: int, k: int) -> bool {
    &&& 0 <= k <= cs.len()
    &&& forall|j: int| 0 <= j < k ==> utf16_offset(cs, j) < off
    &&& k < cs.len() ==> utf16_offset(cs, k) >= off
}

/// Index of the last `'\n'` among the first `c` characters, or -1.
pub open spec fn last_newline_before(cs: Seq<char>, c: int) -> int
    decreases c,
{
    if c <= 0 {
        -1
    } else if cs[c - 1] == '\n' {
        c - 1
    } else {
        last_newline_before(cs, c - 1)
    }
}

/// Index of the first `'\n'` at or after character `c`, or `cs.len()`.
pub open spec fn next_newline_from(cs: Seq<char>, c: int) -> int
    decreases cs.len() - c,
{
    if c >= cs.len() {
        cs.len() as int
    } else if cs[c] == '\n' {
        c
    } else {
        next_newline_from(cs, c + 1)
    }
}

/// Character index that the caret at character `c` reaches when it moves one line up
/// (`up`) or down: the same column on that line, clamped to the line's end; the start of
/// the text when there is no line above, the end when there is none below.
pub open spec fn caret_target(cs: Seq<char>, c: int, up: bool) -> int {
    let line_start = last_newline_before(cs, c) + 1;
    let col = c - line_start;
    if up {
        if line_start == 0 {
            0
        } else {
            let prev_start = last_newline_before(cs, line_start - 1) + 1;
            let prev_len = line_start - 1 - prev_start;
            prev_start + if col < prev_len { col } else { prev_len }
        }
    } else {
        let line_end = next_newline_from(cs, c);
        if line_end == cs.len() {
            cs.len() as int
        } else {
            let next_start = line_end + 1;
            let next_len = next_newline_from(cs, next_start) - next_start;
            next_start + if col < next_len { col } else { next_len }
        }
    }
}

proof fn lemma_width_bounds(c: char)
    ensures
        1 <= utf16_width(c) <= utf8_width(c) <= 4,
{
}

/// Offsets grow with the character index, strictly and the UTF-16 one no faster.
pub(crate) proof fn lemma_offsets_mono(cs: Seq<char>, i: int, j: int)
    requires
        0 <= i <= j,
    ensures
        utf8_offset(cs, i) + (j - i) <= utf8_offset(cs, j),
        utf16_offset(cs, i) + (j - i) <= utf16_offset(cs, j),
        utf16_offset(cs, j) - utf16_offset(cs, i) <= utf8_offset(cs, j) - utf8_offset(cs, i),
    decreases j - i,
{
    if i < j {
        lemma_offsets_mono(cs, i, j - 1);
        lemma_width_bounds(cs[j - 1]);
    }
}

proof fn lemma_offset_drop_first(cs: Seq<char>, k: int)
    requires
        1 <= k <= cs.len(),
    ensures
        utf8_offset(cs, k) == utf8_width(cs[0]) + utf8_offset(cs.drop_first(), k - 1),
    decreases k,
{
    if k > 1 {
        lemma_offset_drop_first(cs, k - 1);
        assert(cs.drop_first()[k - 2] == cs[k - 1]);
    } else {
        assert(utf8_offset(cs, 0) == 0);
        assert(utf8_offset(cs.drop_first(), 0) == 0);
    }
}

proof fn lemma_scalar_len(c: char)
    ensures
        vstd::utf8::encode_scalar(c as u32).len() == utf8_width(c),
{
    vstd::utf8::char_is_scalar(c);
}

/// The byte length of a string is the offset past its last character.
proof fn lemma_encoded_len(cs: Seq<char>)
    ensures
        vstd::utf8::encode_utf8(cs).len() == utf8_offset(cs, cs.len() as int),
    decreases cs.len(),
{
    if cs.len() > 0 {
        lemma_scalar_len(cs[0]);
        lemma_encoded_len(cs.drop_first());
        lemma_offset_drop_first(cs, cs.len() as int);
    }
}

/// Length of `s` in bytes.
pub(crate) fn byte_len(s: &str) -> (n: usize)
    ensures
        n == utf8_offset(s@, s@.len() as int),
{
    let bytes = s.as_bytes();
    proof {
        lemma_encoded_len(s@);
    }
    bytes.len()
}

/// The characters of `s`, in order.
pub(crate) fn char_vec(s: &str) -> (v: Vec<char>)
    ensures
        v@ == s@,
{
    let n = s.unicode_len();
    let mut v: Vec<char> = Vec::new();
    let mut i: usize = 0;
    while i < n
        invariant
            n == s@.len(),
            i <= n,
            v@ == s@.take(i as int),
        decreases n - i,
    {
        let c = s.get_char(i);
        v.push(c);
        i = i + 1;
        assert(v@ =~= s@.take(i as int));
    }
    assert(v@ =~= s@);
    v
}

pub(crate) fn width8(c: char) -> (w: usize)
    ensures
        w == utf8_width(c),
{
    let u = c as u32;
    if u < 0x80 {
        1
    } else if u < 0x800 {
        2
    } else if u < 0x10000 {
        3
    } else {
        4
    }
}

fn width16(c: char) -> (w: usize)
    ensures
        w == utf16_width(c),
{
    if (c as u32) < 0x10000 {
        1
    } else {
        2
    }
}

/// UTF-8 offset of character `k` of `v`, given that the whole text fits in a `usize`.
pub(crate) fn byte_offset_of(v: &Vec<char>, k: usize) -> (b: usize)
    requires
        k <= v.len(),
        utf8_offset(v@, v@.len() as int) <= usize::MAX,
    ensures
        b == utf8_offset(v@, k as int),
{
    let mut b: usize = 0;
    let mut i: usize = 0;
    while i < k
        invariant
            i <= k <= v.len(),
            utf8_offset(v@, v@.len() as int) <= usize::MAX,
            b == utf8_offset(v@, i as int),
        decreases k - i,
    {
        proof {
            lemma_offsets_mono(v@, i + 1, v@.len() as int);
        }
        b = b + width8(v[i]);
        i = i + 1;
    }
    b
}

/// Character index of the boundary at byte `byte`.
pub(crate) fn char_index_of(v: &Vec<char>, byte: usize) -> (k: usize)
    requires
        is_boundary(v@, byte as int),
        utf8_offset(v@, v@.len() as int) <= usize::MAX,
    ensures
        k <= v.len(),
        utf8_offset(v@, k as int) == byte,
{
    let ghost target = choose|k: int| 0 <= k <= v@.len() && #[trigger] utf8_offset(v@, k) == byte;
    let mut b: usize = 0;
    let mut i: usize = 0;
    while b < byte
        invariant
            i <= target <= v.len(),
            utf8_offset(v@, target) == byte,
            utf8_offset(v@, v@.len() as int) <= usize::MAX,
            b == utf8_offset(v@, i as int),
        decreases target - i,
    {
        proof {
            if i == target {
                assert(false);
            }
            lemma_offsets_mono(v@, i + 1, target);
        }
        b = b + width8(v[i]);
        i = i + 1;
    }
    proof {
        if i < target {
            lemma_offsets_mono(v@, i + 1, target);
        }
    }
    i
}

/// Byte index in `s` for a UTF-16 code-unit offset, clamped to the end: the byte offset
/// of the first character whose UTF-16 offset reaches `off16`.
pub fn utf16_to_byte(s: &str, off16: usize) -> (b: usize)
    ensures
        exists|k: int| #[trigger] lands_at_utf16(s@, off16 as int, k) && b == utf8_offset(s@, k),
{
    let v = char_vec(s);
    let total = byte_len(s);
    let n = v.len();
    let mut u: usize = 0;
    let mut b: usize = 0;
    let mut i: usize = 0;
    while i < n
        invariant
            v@ == s@,
            n == v.len(),
            i <= n,
            total == utf8_offset(s@, n as int),
            b == utf8_offset(s@, i as int),
            u == utf16_offset(s@, i as int),
            forall|j: int| 0 <= j < i ==> utf16_offset(s@, j) < off16,
        decreases n - i,
    {
        if u >= off16 {
            assert(lands_at_utf16(s@, off16 as int, i as int));
            return b;
        }
        proof {
            lemma_offsets_mono(s@, i + 1, n as int);
            lemma_offsets_mono(s@, 0, i + 1);
        }
        u = u + width16(v[i]);
        b = b + width8(v[i]);
        i = i + 1;
    }
    assert(lands_at_utf16(s@, off16 as int, n as int));
    total
}

/// UTF-16 code-unit offset for a byte index in `s`, clamped to the end: the UTF-16 offset
/// of the first character whose byte offset reaches `byte`.
pub fn byte_to_utf16(s: &str, byte: usize) -> (u: usize)
    ensures
        exists|k: int| #[trigger] lands_at_byte(s@, byte as int, k) && u == utf16_offset(s@, k),
{
    let v = char_vec(s);
    let total = byte_len(s);
    let n = v.len();
    let mut u: usize = 0;
    let mut b: usize = 0;
    let mut i: usize = 0;
    while i < n
        invariant
            v@ == s@,
            n == v.len(),
            i <= n,
            total == utf8_offset(s@, n as int),
            b == utf8_offset(s@, i as int),
            u == utf16_offset(s@, i as int),
            forall|j: int| 0 <= j < i ==> utf8_offset(s@, j) < byte,
        decreases n - i,
    {
        if b >= byte {
            assert(lands_at_byte(s@, byte as int, i as int));
            return u;
        }
        proof {
            lemma_offsets_mono(s@, i + 1, n as int);
            lemma_offsets_mono(s@, 0, i + 1);
        }
        u = u + width16(v[i]);
        b = b + width8(v[i]);
        i = i + 1;
    }
    assert(lands_at_byte(s@, byte as int, n as int));
    u
}

/// Convert a byte range in `s` to a UTF-16 range, end by end.
pub fn range_to_utf16(s: &str, r: &Range<usize>) -> (out: Range<usize>)
    ensures
        exists|k: int| #[trigger] lands_at_byte(s@, r.start as int, k) && out.start == utf16_offset(s@, k),
        exists|k: int| #[trigger] lands_at_byte(s@, r.end as int, k) && out.end == utf16_offset(s@, k),
{
    let start = byte_to_utf16(s, r.start);
    let end = byte_to_utf16(s, r.end);
    start..end
}

/// Convert a UTF-16 range to a byte range in `s`, end by end.
pub fn range_from_utf16(s: &str, r: &Range<usize>) -> (out: Range<usize>)
    ensures
        exists|k: int| #[trigger] lands_at_utf16(s@, r.start as int, k) && out.start == utf8_offset(s@, k),
        exists|k: int| #[trigger] lands_at_utf16(s@, r.end as int, k) && out.end == utf8_offset(s@, k),
{
    let start = utf16_to_byte(s, r.start);
    let end = utf16_to_byte(s, r.end);
    start..end
}

/// Byte index of the character boundary before the boundary `byte` (0 at the start).
pub fn prev_char_boundary(s: &str, byte: usize) -> (p: usize)
    requires
        is_boundary(s@, byte as int),
    ensures
        exists|k: int|
            0 <= k <= s@.len() && #[trigger] utf8_offset(s@, k) == byte && p == (if k == 0 {
                0
            } else {
                utf8_offset(s@, k - 1)
            }),
{
    let v = char_vec(s);
    let total = byte_len(s);
    let k = char_index_of(&v, byte);
    if k == 0 {
        0
    } else {
        byte_offset_of(&v, k - 1)
    }
}

/// Byte index of the character boundary after the boundary `byte` (the end at the end).
pub fn next_char_boundary(s: &str, byte: usize) -> (p: usize)
    requires
        is_boundary(s@, byte as int),
    ensures
        exists|k: int|
            0 <= k <= s@.len() && #[trigger] utf8_offset(s@, k) == byte && p == (if k < s@.len() {
                utf8_offset(s@, k + 1)
            } else {
                utf8_offset(s@, k)
            }),
{
    let v = char_vec(s);
    let total = byte_len(s);
    let k = char_index_of(&v, byte);
    if k < v.len() {
        byte_offset_of(&v, k + 1)
    } else {
        byte
    }
}

/// One past the last `'\n'` among the first `c` characters of `v` (0 when there is none).
fn line_start_of(v: &Vec<char>, c: usize) -> (r: usize)
    requires
        c <= v.len(),
    ensures
        r == last_newline_before(v@, c as int) + 1,
        r <= c,
{
    let mut i = c;
    while i > 0
        invariant
            i <= c <= v.len(),
            last_newline_before(v@, c as int) == last_newline_before(v@, i as int),
        decreases i,
    {
        if v[i - 1] == '\n' {
            return i;
        }
        i = i - 1;
    }
    0
}

/// Index of the first `'\n'` at or after character `c` of `v` (`v.len()` when there is none).
fn newline_from(v: &Vec<char>, c: usize) -> (r: usize)
    requires
        c <= v.len(),
    ensures
        r == next_newline_from(v@, c as int),
        c <= r <= v.len(),
{
    let mut i = c;
    while i < v.len()
        invariant
            c <= i <= v.len(),
            next_newline_from(v@, c as int) == next_newline_from(v@, i as int),
        decreases v.len() - i,
    {
        if v[i] == '\n' {
            return i;
        }
        i = i + 1;
    }
    v.len()
}

/// Move the caret one source line up (`dir < 0`) or down (`dir >= 0`) in `s`, keeping its
/// column in characters, and return the new byte offset. A caret past the end counts as at
/// the end. Moving up from the first line goes to the very start; moving down from the last
/// line goes to the very end. Lines are split on `'\n'`.
pub fn caret_line_move(s: &str, caret: usize, dir: i32) -> (r: usize)
    requires
        caret >= utf8_offset(s@, s@.len() as int) || is_boundary(s@, caret as int),
    ensures
        exists|c: int|
            0 <= c <= s@.len() && #[trigger] utf8_offset(s@, c) == (if caret < utf8_offset(
                s@,
                s@.len() as int,
            ) {
                caret as int
            } else {
                utf8_offset(s@, s@.len() as int) as int
            }) && r == utf8_offset(s@, caret_target(s@, c, dir < 0)),
{
    let v = char_vec(s);
    let total = byte_len(s);
    let n = v.len();
    let at = if caret < total {
        caret
    } else {
        total
    };
    proof {
        if caret >= total {
            assert(utf8_offset(v@, n as int) == at);
        }
        lemma_offsets_mono(v@, 0, n as int);
    }
    let c = char_index_of(&v, at);
    let ls = line_start_of(&v, c);
    let col = c - ls;
    let target = if dir < 0 {
        if ls == 0 {
            0
        } else {
            let ps = line_start_of(&v, ls - 1);
            let prev_len = ls - 1 - ps;
            ps + if col < prev_len {
                col
            } else {
                prev_len
            }
        }
    } else {
        let le = newline_from(&v, c);
        if le == n {
            n
        } else {
            let ns = le + 1;
            let ne = newline_from(&v, ns);
            let next_len = ne - ns;
            ns + if col < next_len {
                col
            } else {
                next_len
            }
        }
    };
    byte_offset_of(&v, target)
}

/// Distinct characters have distinct byte offsets and distinct UTF-16 offsets, so a
/// boundary names exactly one character.
pub proof fn law_offsets_injective(cs: Seq<char>, i: int, j: int)
    requires
        0 <= i,
        0 <= j,
    ensures
        utf8_offset(cs, i) == utf8_offset(cs, j) ==> i == j,
        utf16_offset(cs, i) == utf16_offset(cs, j) ==> i == j,
{
    if i < j {
        lemma_offsets_mono(cs, i, j);
    } else if j < i {
        lemma_offsets_mono(cs, j, i);
    }
}

/// Every UTF-16 offset lands on some character.
pub(crate) proof fn lemma_landing_exists(cs: Seq<char>, off: int)
    ensures
        exists|k: int| #[trigger] lands_at_utf16(cs, off, k),
{
    lemma_landing_from(cs, off, 0);
}

proof fn lemma_landing_from(cs: Seq<char>, off: int, i: int)
    requires
        0 <= i <= cs.len(),
        forall|j: int| 0 <= j < i ==> utf16_offset(cs, j) < off,
    ensures
        exists|k: int| #[trigger] lands_at_utf16(cs, off, k),
    decreases cs.len() - i,
{
    if i == cs.len() || utf16_offset(cs, i) >= off {
        assert(lands_at_utf16(cs, off, i));
    } else {
        lemma_landing_from(cs, off, i + 1);
    }
}

/// An offset lands on one character only, so each conversion has one answer.
pub proof fn law_landing_unique(cs: Seq<char>, off: int, k1: int, k2: int)
    ensures
        lands_at_byte(cs, off, k1) && lands_at_byte(cs, off, k2) ==> k1 == k2,
        lands_at_utf16(cs, off, k1) && lands_at_utf16(cs, off, k2) ==> k1 == k2,
{
}

/// A character boundary converted to UTF-16 and back is the same boundary: the byte offset
/// of character `k` lands on `k`, and so does its UTF-16 offset.
pub proof fn law_boundary_roundtrip(cs: Seq<char>, k: int)
    requires
        0 <= k <= cs.len(),
    ensures
        lands_at_byte(cs, utf8_offset(cs, k) as int, k),
        lands_at_utf16(cs, utf16_offset(cs, k) as int, k),
{
    assert forall|j: int| 0 <= j < k implies utf8_offset(cs, j) < utf8_offset(cs, k)
        && utf16_offset(cs, j) < utf16_offset(cs, k) by {
        lemma_offsets_mono(cs, j, k);
    }
}

pub(crate) proof fn lemma_newline_bounds(cs: Seq<char>, c: int)
    requires
        0 <= c <= cs.len(),
    ensures
        -1 <= last_newline_before(cs, c) < c,
        c <= next_newline_from(cs, c) <= cs.len(),
        next_newline_from(cs, c) < cs.len() ==> cs[next_newline_from(cs, c)] == '\n',
    decreases cs.len() - c,
{
    lemma_last_newline_bounds(cs, c);
    if c < cs.len() && cs[c] != '\n' {
        lemma_newline_bounds(cs, c + 1);
    }
}

proof fn lemma_last_newline_bounds(cs: Seq<char>, c: int)
    requires
        0 <= c,
    ensures
        -1 <= last_newline_before(cs, c) < c,
    decreases c,
{
    if c > 0 {
        lemma_last_newline_bounds(cs, c - 1);
    }
}

/// Moving the caret up or down from a character of the text lands on a character of the
/// text, so the offset returned is a boundary.
pub proof fn law_caret_stays_in_text(cs: Seq<char>, c: int, up: bool)
    requires
        0 <= c <= cs.len(),
    ensures
        0 <= caret_target(cs, c, up) <= cs.len(),
{
    lemma_newline_bounds(cs, c);
    let line_start = last_newline_before(cs, c) + 1;
    if line_start > 0 {
        lemma_newline_bounds(cs, line_start - 1);
    }
    let line_end = next_newline_from(cs, c);
    if line_end < cs.len() {
        lemma_newline_bounds(cs, line_end + 1);
    }
}

/// Up and down move the caret by exactly one line and keep its column where the line allows:
/// up from the first line goes to the start of the text and down from the last line to its
/// end; otherwise the caret lands on the line before (after), at its own column or, when
/// that line is shorter, at that line's end.
pub proof fn law_caret_line_move(cs: Seq<char>, c: int)
    requires
        0 <= c <= cs.len(),
    ensures
        ({
            let s = last_newline_before(cs, c) + 1;
            let col = c - s;
            let r = caret_target(cs, c, true);
            &&& s == 0 ==> r == 0
            &&& s > 0 ==> {
                let ps = last_newline_before(cs, s - 1) + 1;
                &&& cs[s - 1] == '\n'
                &&& ps <= r <= s - 1
                &&& forall|j: int| ps <= j < r ==> cs[j] != '\n'
                &&& (r - ps == col || (r == s - 1 && col > r - ps))
            }
        }),
        ({
            let s = last_newline_before(cs, c) + 1;
            let col = c - s;
            let e = next_newline_from(cs, c);
            let r = caret_target(cs, c, false);
            &&& e == cs.len() ==> r == cs.len()
            &&& e < cs.len() ==> {
                let ne = next_newline_from(cs, e + 1);
                &&& cs[e] == '\n'
                &&& e + 1 <= r <= ne
                &&& forall|j: int| e + 1 <= j < r ==> cs[j] != '\n'
                &&& (r - (e + 1) == col || (r == ne && col > r - (e + 1)))
            }
        }),
{
    lemma_newline_bounds(cs, c);
    let s = last_newline_before(cs, c) + 1;
    if s > 0 {
        lemma_last_newline_at(cs, c);
        lemma_newline_bounds(cs, s - 1);
        lemma_no_newline_between(cs, s - 1);
    }
    let e = next_newline_from(cs, c);
    if e < cs.len() {
        lemma_newline_bounds(cs, e + 1);
        lemma_no_newline_until(cs, e + 1);
    }
}

/// The last newline before `c`, when there is one, is a newline.
proof fn lemma_last_newline_at(cs: Seq<char>, c: int)
    requires
        0 <= c <= cs.len(),
        last_newline_before(cs, c) >= 0,
    ensures
        cs[last_newline_before(cs, c)] == '\n',
    decreases c,
{
    if c > 0 && cs[c - 1] != '\n' {
        lemma_last_newline_at(cs, c - 1);
    }
}

/// No newline lies after the last newline before `c` and before `c`.
proof fn lemma_no_newline_between(cs: Seq<char>, c: int)
    requires
        0 <= c <= cs.len(),
    ensures
        forall|j: int| last_newline_before(cs, c) < j < c ==> cs[j] != '\n',
    decreases c,
{
    if c > 0 && cs[c - 1] != '\n' {
        lemma_no_newline_between(cs, c - 1);
    }
}

/// No newline lies from `c` up to the first newline at or after it.
proof fn lemma_no_newline_until(cs: Seq<char>, c: int)
    requires
        0 <= c <= cs.len(),
    ensures
        forall|j: int| c <= j < next_newline_from(cs, c) ==> cs[j] != '\n',
    decreases cs.len() - c,
{
    if c < cs.len() && cs[c] != '\n' {
        lemma_no_newline_until(cs, c + 1);
    }
}

/// Offsets within the first part of a joined text are the part's own; past it, the first
/// part's length plus the offset within the second.
pub proof fn lemma_offset_concat(x: Seq<char>, y: Seq<char>, k: int)
    requires
        0 <= k <= x.len() + y.len(),
    ensures
        k <= x.len() ==> utf8_offset(x + y, k) == utf8_offset(x, k),
        k >= x.len() ==> utf8_offset(x + y, k) == utf8_offset(x, x.len() as int) + utf8_offset(
            y,
            k - x.len(),
        ),
    decreases k,
{
    if k > 0 {
        lemma_offset_concat(x, y, k - 1);
        if k > x.len() {
            assert((x + y)[k - 1] == y[k - 1 - x.len()]);
        } else {
            assert((x + y)[k - 1] == x[k - 1]);
        }
    }
}

} // verus!
