//! Text pieces of hand-written XML: escaping, decimal numbers and hex colours.

use crate::strings::push_char;
use crate::textnav::char_vec;
use vstd::prelude::*;

verus! {

/// What one character becomes in escaped XML text or attribute values.
pub open spec fn escape_char(c: char) -> Seq<char> {
    if c == '&' {
        "&amp;"@
    } else if c == '<' {
        "&lt;"@
    } else if c == '>' {
        "&gt;"@
    } else if c == '"' {
        "&quot;"@
    } else if c == '\'' {
        "&apos;"@
    } else {
        seq![c]
    }
}

/// `cs` with every character escaped.
pub open spec fn escaped(cs: Seq<char>) -> Seq<char>
    decreases cs.len(),
{
    if cs.len() == 0 {
        Seq::empty()
    } else {
        escaped(cs.drop_last()) + escape_char(cs.last())
    }
}

/// Escape XML text content or an attribute value.
pub fn escape_xml(s: &str) -> (out: String)
    ensures
        out@ == escaped(s@),
{
    let cs = char_vec(s);
    let mut out = String::new();
    let mut i: usize = 0;
    while i < cs.len()
        invariant
            cs@ == s@,
            i <= cs.len(),
            out@ == escaped(s@.take(i as int)),
        decreases cs.len() - i,
    {
        let c = cs[i];
        assert(s@.take(i + 1).drop_last() =~= s@.take(i as int));
        if c == '&' {
            out.append("&amp;");
        } else if c == '<' {
            out.append("&lt;");
        } else if c == '>' {
            out.append("&gt;");
        } else if c == '"' {
            out.append("&quot;");
        } else if c == '\'' {
            out.append("&apos;");
        } else {
            push_char(&mut out, c);
        }
        i = i + 1;
    }
    assert(s@.take(cs.len() as int) =~= s@);
    out
}

/// Escaped text holds no markup character: no `<`, `>`, `"` or `'`.
pub proof fn law_escaped_has_no_markup(cs: Seq<char>)
    ensures
        forall|i: int|
            0 <= i < escaped(cs).len() ==> {
                let c = #[trigger] escaped(cs)[i];
                c != '<' && c != '>' && c != '"' && c != '\''
            },
    decreases cs.len(),
{
    reveal_strlit("&amp;");
    reveal_strlit("&lt;");
    reveal_strlit("&gt;");
    reveal_strlit("&quot;");
    reveal_strlit("&apos;");
    if cs.len() > 0 {
        law_escaped_has_no_markup(cs.drop_last());
        let prev = escaped(cs.drop_last());
        let tail = escape_char(cs.last());
        assert forall|i: int| 0 <= i < tail.len() implies {
            let c = #[trigger] tail[i];
            c != '<' && c != '>' && c != '"' && c != '\''
        } by {
            let c = cs.last();
            if c == '&' {
                assert(tail == "&amp;"@);
            } else if c == '<' {
                assert(tail == "&lt;"@);
            } else if c == '>' {
                assert(tail == "&gt;"@);
            } else if c == '"' {
                assert(tail == "&quot;"@);
            } else if c == '\'' {
                assert(tail == "&apos;"@);
            }
        }
        assert forall|i: int| 0 <= i < escaped(cs).len() implies {
            let c = #[trigger] escaped(cs)[i];
            c != '<' && c != '>' && c != '"' && c != '\''
        } by {
            if i < prev.len() {
                assert(escaped(cs)[i] == prev[i]);
            } else {
                assert(escaped(cs)[i] == tail[i - prev.len()]);
            }
        }
    }
}

/// The decimal digit character for `d` (`0..10`).
pub open spec fn digit_char(d: nat) -> char {
    (d + 48) as char
}

/// The decimal rendering of `n`, without leading zeros.
pub open spec fn decimal(n: nat) -> Seq<char>
    decreases n,
{
    if n < 10 {
        seq![digit_char(n)]
    } else {
        decimal(n / 10).push(digit_char(n % 10))
    }
}

/// The decimal rendering of `n`, with a `-` before a negative number (what `{}` formats).
pub open spec fn signed_decimal(n: int) -> Seq<char> {
    if n < 0 {
        seq!['-'] + decimal((-n) as nat)
    } else {
        decimal(n as nat)
    }
}

fn digit(d: u64) -> (c: char)
    requires
        d < 10,
    ensures
        c == digit_char(d as nat),
{
    match d {
        0 => '0',
        1 => '1',
        2 => '2',
        3 => '3',
        4 => '4',
        5 => '5',
        6 => '6',
        7 => '7',
        8 => '8',
        _ => '9',
    }
}

proof fn lemma_reverse_push(s: Seq<char>, d: char)
    ensures
        s.push(d).reverse() == seq![d] + s.reverse(),
{
    assert(s.push(d).reverse() =~= seq![d] + s.reverse());
}

proof fn lemma_push_concat(a: Seq<char>, d: char, b: Seq<char>)
    ensures
        a.push(d) + b == a + (seq![d] + b),
{
    assert(a.push(d) + b =~= a + (seq![d] + b));
}

proof fn lemma_reverse_take_push(r: Seq<char>, k: int)
    requires
        0 <= k < r.len(),
    ensures
        r.reverse().take(k + 1) == r.reverse().take(k).push(r[r.len() - 1 - k]),
{
    assert(r.reverse().take(k + 1) =~= r.reverse().take(k).push(r[r.len() - 1 - k]));
}

/// Append the decimal rendering of `n`.
pub fn push_decimal(out: &mut String, n: u64)
    ensures
        final(out)@ == old(out)@ + decimal(n as nat),
{
    let mut rev: Vec<char> = Vec::new();
    let mut m = n;
    assert(decimal(n as nat) =~= decimal(m as nat) + rev@.reverse());
    loop
        invariant_except_break
            decimal(n as nat) == decimal(m as nat) + rev@.reverse(),
        ensures
            decimal(n as nat) == rev@.reverse(),
        decreases m,
    {
        let d = digit(m % 10);
        let ghost before = rev@;
        rev.push(d);
        proof {
            lemma_reverse_push(before, d);
        }
        if m < 10 {
            assert(decimal(n as nat) =~= rev@.reverse());
            break;
        }
        proof {
            assert(decimal(m as nat) == decimal((m / 10) as nat).push(d));
            lemma_push_concat(decimal((m / 10) as nat), d, before.reverse());
        }
        m = m / 10;
    }
    let ghost start = out@;
    let ghost r = rev@;
    let mut i = rev.len();
    assert(r.reverse().take(0) =~= Seq::<char>::empty());
    while i > 0
        invariant
            i <= rev.len(),
            r == rev@,
            decimal(n as nat) == r.reverse(),
            out@ == start + r.reverse().take((rev.len() - i) as int),
        decreases i,
    {
        proof {
            lemma_reverse_take_push(r, (rev.len() - i) as int);
        }
        push_char(out, rev[i - 1]);
        i = i - 1;
    }
    assert(r.reverse().take(rev.len() as int) =~= r.reverse());
}

/// Append the decimal rendering of a signed number.
pub fn push_signed(out: &mut String, n: i64)
    ensures
        final(out)@ == old(out)@ + signed_decimal(n as int),
{
    if n < 0 {
        push_char(out, '-');
        let m: u64 = ((-(n + 1)) as u64) + 1;
        let ghost mid = out@;
        push_decimal(out, m);
        assert(out@ =~= old(out)@ + (seq!['-'] + decimal(m as nat)));
    } else {
        push_decimal(out, n as u64);
    }
}

/// The uppercase hex digit for `d` (`0..16`).
pub open spec fn hex_upper(d: nat) -> char {
    if d < 10 {
        (d + 48) as char
    } else {
        (d + 55) as char
    }
}

/// Two uppercase hex digits for a byte.
pub open spec fn hex2(b: u8) -> Seq<char> {
    seq![hex_upper((b / 16) as nat), hex_upper((b % 16) as nat)]
}

/// `RRGGBB` in uppercase hex.
pub open spec fn hex_rgb_text(r: u8, g: u8, b: u8) -> Seq<char> {
    hex2(r) + hex2(g) + hex2(b)
}

fn hex_digit_upper(d: u8) -> (c: char)
    requires
        d < 16,
    ensures
        c == hex_upper(d as nat),
{
    if d < 10 {
        (d + 48) as char
    } else {
        (d + 55) as char
    }
}

fn push_hex2(out: &mut String, b: u8)
    ensures
        final(out)@ == old(out)@ + hex2(b),
{
    push_char(out, hex_digit_upper(b / 16));
    push_char(out, hex_digit_upper(b % 16));
    assert(out@ =~= old(out)@ + hex2(b));
}

/// A colour as `RRGGBB` in uppercase hex.
pub fn hex_rgb(r: u8, g: u8, b: u8) -> (s: String)
    ensures
        s@ == hex_rgb_text(r, g, b),
{
    let mut s = String::new();
    push_hex2(&mut s, r);
    push_hex2(&mut s, g);
    push_hex2(&mut s, b);
    assert(s@ =~= hex_rgb_text(r, g, b));
    s
}

} // verus!
