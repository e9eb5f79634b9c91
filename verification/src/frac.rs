//! Sibling order keys (fractional indexing).
//!
//! Slide and shape order is stored as a variable-length key that stands for a fraction in
//! `0..1`, rather than a `Vec` index. A new key can always be generated between any two
//! existing keys, so inserting or reordering one element never disturbs the others.
//!
//! The bytes of a key are the base-256 digits after the radix point (`[128]` is `0.5`).
//! Generated keys never end in a zero byte, so the lexicographic order of the byte
//! sequences (the derived `Ord`) agrees with the order of the fractions they stand for.

use vstd::prelude::*;

verus! {

#[derive(Clone, Debug, PartialEq, Eq, PartialOrd, Ord, Hash)]
pub struct FracIndex(pub Vec<u8>);

impl View for FracIndex {
    type V = Seq<u8>;

    open spec fn view(&self) -> Seq<u8> {
        self.0@
    }
}

/// The `j`-th base-256 digit of the fraction `s` (digits past the end are zero).
pub open spec fn digit(s: Seq<u8>, j: int) -> int {
    if 0 <= j < s.len() {
        s[j] as int
    } else {
        0
    }
}

/// `a` and `b` agree on their first `k` digits and `a`'s `k`-th digit is smaller.
pub open spec fn frac_lt_at(a: Seq<u8>, b: Seq<u8>, k: int) -> bool {
    &&& 0 <= k
    &&& forall|j: int| 0 <= j < k ==> digit(a, j) == digit(b, j)
    &&& digit(a, k) < digit(b, k)
}

/// `a < b` as base-256 fractions.
pub open spec fn frac_lt(a: Seq<u8>, b: Seq<u8>) -> bool {
    exists|k: int| frac_lt_at(a, b, k)
}

/// `a` and `b` agree on their first `k` bytes, and then either `a` ends (while `b` goes
/// on) or `a`'s `k`-th byte is smaller.
pub open spec fn lex_lt_at(a: Seq<u8>, b: Seq<u8>, k: int) -> bool {
    &&& 0 <= k <= a.len()
    &&& k < b.len()
    &&& forall|j: int| 0 <= j < k ==> a[j] == b[j]
    &&& (k == a.len() || a[k] < b[k])
}

/// Lexicographic order of byte sequences (the order of the derived `Ord` on `Vec<u8>`).
pub open spec fn lex_lt(a: Seq<u8>, b: Seq<u8>) -> bool {
    exists|k: int| lex_lt_at(a, b, k)
}

/// A key as generated here: non-empty and not ending in a zero byte.
pub open spec fn canonical(s: Seq<u8>) -> bool {
    s.len() > 0 && s.last() != 0
}

/// The digits of an optional lower bound (`None` is `0.0`, the empty key).
pub open spec fn lower_digits(lo: Option<&FracIndex>) -> Seq<u8> {
    match lo {
        Some(x) => x@,
        None => Seq::empty(),
    }
}

/// The digits of an optional upper bound (`None` is `1.0`, no digits).
pub open spec fn upper_digits(hi: Option<&FracIndex>) -> Option<Seq<u8>> {
    match hi {
        Some(x) => Some(x@),
        None => None,
    }
}

/// The first `n` digits of `lo`, zeros past its end.
pub open spec fn lo_digits(lo: Seq<u8>, n: int) -> Seq<u8> {
    Seq::new(n as nat, |j: int| digit(lo, j) as u8)
}

/// The first place at or after `from` where `lo` has a digit below 255.
pub open spec fn below_255_from(lo: Seq<u8>, from: int) -> int
    decreases lo.len() - from,
{
    if from >= lo.len() || digit(lo, from) < 255 {
        from
    } else {
        below_255_from(lo, from + 1)
    }
}

/// A key above `lo` with no upper bound from `from` on: `lo`'s digits up to the first place
/// from `from` with room below 256, then the middle digit there.
pub open spec fn open_key(lo: Seq<u8>, from: int) -> Seq<u8> {
    let j = below_255_from(lo, from);
    lo_digits(lo, j).push(((digit(lo, j) + 256) / 2) as u8)
}

/// The first place where `lo` falls below `hi`.
pub open spec fn first_gap(lo: Seq<u8>, hi: Seq<u8>) -> int {
    choose|k: int| frac_lt_at(lo, hi, k)
}

/// The key generated between `lo` and `hi` (`None`: no upper bound). At the first place
/// where `lo` falls below `hi`, a gap of two or more gives the middle digit there; a gap of
/// one leaves the upper bound behind, and the key continues as an open key after it.
pub open spec fn between_spec(lo: Seq<u8>, hi: Option<Seq<u8>>) -> Seq<u8> {
    match hi {
        None => open_key(lo, 0),
        Some(h) => {
            let k = first_gap(lo, h);
            if digit(lo, k) + 1 < digit(h, k) {
                lo_digits(lo, k).push(((digit(lo, k) + digit(h, k)) / 2) as u8)
            } else {
                open_key(lo, k + 1)
            }
        },
    }
}

proof fn lemma_below_255_from(lo: Seq<u8>, from: int, i: int)
    requires
        from <= i,
        forall|j: int| from <= j < i ==> digit(lo, j) == 255,
        digit(lo, i) < 255,
    ensures
        below_255_from(lo, from) == i,
    decreases i - from,
{
    if from < i {
        assert(digit(lo, from) == 255);
        assert(from < lo.len());
        lemma_below_255_from(lo, from + 1, i);
    }
}

pub proof fn lemma_lex_lt_irreflexive(a: Seq<u8>)
    ensures
        !lex_lt(a, a),
{
}

pub proof fn lemma_lex_lt_transitive(a: Seq<u8>, b: Seq<u8>, c: Seq<u8>)
    requires
        lex_lt(a, b),
        lex_lt(b, c),
    ensures
        lex_lt(a, c),
{
    let k1 = choose|k: int| lex_lt_at(a, b, k);
    let k2 = choose|k: int| lex_lt_at(b, c, k);
    if k1 < k2 {
        assert(lex_lt_at(a, c, k1));
    } else if k2 < k1 {
        assert(a[k2] == b[k2]);
        assert(lex_lt_at(a, c, k2));
    } else {
        assert(lex_lt_at(a, c, k1));
    }
}

/// `a` and `b` agree below `i`; scanning on from `i` up to `n` finds an order or agreement.
proof fn lemma_lex_scan(a: Seq<u8>, b: Seq<u8>, i: int, n: int)
    requires
        0 <= i <= n,
        n <= a.len(),
        n <= b.len(),
        forall|j: int| 0 <= j < i ==> a[j] == b[j],
    ensures
        lex_lt(a, b) || lex_lt(b, a) || (forall|j: int| 0 <= j < n ==> a[j] == b[j]),
    decreases n - i,
{
    if i < n {
        if a[i] < b[i] {
            assert(lex_lt_at(a, b, i));
        } else if b[i] < a[i] {
            assert(lex_lt_at(b, a, i));
        } else {
            lemma_lex_scan(a, b, i + 1, n);
        }
    }
}

/// Two different byte sequences are ordered one way or the other.
pub proof fn lemma_lex_lt_total(a: Seq<u8>, b: Seq<u8>)
    requires
        a != b,
    ensures
        lex_lt(a, b) || lex_lt(b, a),
{
    let n: int = if a.len() < b.len() {
        a.len() as int
    } else {
        b.len() as int
    };
    lemma_lex_scan(a, b, 0, n);
    if !lex_lt(a, b) && !lex_lt(b, a) {
        if a.len() < b.len() {
            assert(lex_lt_at(a, b, n));
        } else if b.len() < a.len() {
            assert(lex_lt_at(b, a, n));
        } else {
            assert(a =~= b);
        }
    }
}

pub proof fn lemma_lex_lt_asymmetric(a: Seq<u8>, b: Seq<u8>)
    requires
        lex_lt(a, b),
    ensures
        !lex_lt(b, a),
{
    if lex_lt(b, a) {
        lemma_lex_lt_transitive(a, b, a);
        lemma_lex_lt_irreflexive(a);
    }
}

/// The first non-zero byte of `b` at or after `j`, given one exists there.
proof fn lemma_nonzero_from(b: Seq<u8>, j: int) -> (k: int)
    requires
        0 <= j < b.len(),
        b.last() != 0,
    ensures
        j <= k < b.len(),
        b[k] != 0,
        forall|i: int| j <= i < k ==> b[i] == 0,
    decreases b.len() - j,
{
    if b[j] != 0 {
        j
    } else {
        lemma_nonzero_from(b, j + 1)
    }
}

/// For keys that do not end in a zero byte, the order of their bytes is the order of the
/// fractions they stand for.
pub proof fn law_canonical_keys_order_as_fractions(a: Seq<u8>, b: Seq<u8>)
    requires
        canonical(a),
        canonical(b),
    ensures
        lex_lt(a, b) <==> frac_lt(a, b),
{
    if lex_lt(a, b) {
        let k = choose|k: int| lex_lt_at(a, b, k);
        if k < a.len() {
            assert(frac_lt_at(a, b, k));
        } else {
            let j = lemma_nonzero_from(b, k);
            assert forall|i: int| 0 <= i < j implies digit(a, i) == digit(b, i) by {
                if i < k {
                    assert(a[i] == b[i]);
                }
            }
            assert(frac_lt_at(a, b, j));
        }
    }
    if frac_lt(a, b) {
        let k = choose|k: int| frac_lt_at(a, b, k);
        if k < a.len() {
            assert forall|j: int| 0 <= j < k implies a[j] == b[j] by {
                assert(digit(a, j) == digit(b, j));
            }
            assert(lex_lt_at(a, b, k));
        } else {
            let n = a.len() as int;
            assert forall|j: int| 0 <= j < n implies a[j] == b[j] by {
                assert(digit(a, j) == digit(b, j));
            }
            assert(lex_lt_at(a, b, n));
        }
    }
}

/// Lexicographic comparison of two keys' byte sequences.
pub fn lex_less(a: &Vec<u8>, b: &Vec<u8>) -> (r: bool)
    ensures
        r == lex_lt(a@, b@),
{
    let mut i: usize = 0;
    while i < a.len() && i < b.len()
        invariant
            i <= a.len(),
            i <= b.len(),
            forall|j: int| 0 <= j < i ==> a@[j] == b@[j],
        decreases a.len() - i,
    {
        if a[i] != b[i] {
            if a[i] < b[i] {
                assert(lex_lt_at(a@, b@, i as int));
                return true;
            } else {
                assert forall|k: int| !lex_lt_at(a@, b@, k) by {
                    if 0 <= k < i {
                        assert(a@[k] == b@[k]);
                    }
                }
                return false;
            }
        }
        i = i + 1;
    }
    if a.len() < b.len() {
        assert(lex_lt_at(a@, b@, i as int));
        true
    } else {
        assert forall|k: int| !lex_lt_at(a@, b@, k) by {
            if 0 <= k < i {
                assert(a@[k] == b@[k]);
            }
        }
        false
    }
}

/// Scanning from `from` for a digit below 255 stops within the key (or just past it), past
/// only 255s.
proof fn lemma_below_255_bounds(lo: Seq<u8>, from: int)
    requires
        0 <= from <= lo.len(),
    ensures
        from <= below_255_from(lo, from) <= lo.len(),
        forall|i: int| from <= i < below_255_from(lo, from) ==> digit(lo, i) == 255,
        below_255_from(lo, from) < lo.len() ==> digit(lo, below_255_from(lo, from)) < 255,
    decreases lo.len() - from,
{
    if from < lo.len() && digit(lo, from) == 255 {
        lemma_below_255_bounds(lo, from + 1);
    }
}

/// The key generated after `lo` with no upper bound lies above it.
pub proof fn lemma_after_above(lo: Seq<u8>)
    ensures
        lex_lt(lo, between_spec(lo, None)),
{
    lemma_below_255_bounds(lo, 0);
    let j = below_255_from(lo, 0);
    let out = open_key(lo, 0);
    assert(out.len() == j + 1);
    assert forall|k: int| 0 <= k < j && k < lo.len() implies lo[k] == out[k] by {
        assert(digit(lo, k) == 255);
        assert(out[k] == digit(lo, k) as u8);
    }
    if j < lo.len() {
        assert(lex_lt_at(lo, out, j));
    } else {
        assert(j == lo.len());
        assert(lex_lt_at(lo, out, j));
    }
}

/// The key generated below `hi` from zero lies below it, when `hi` stands for a fraction
/// above zero.
pub proof fn lemma_before_below(hi: Seq<u8>)
    requires
        frac_lt(Seq::empty(), hi),
    ensures
        lex_lt(between_spec(Seq::empty(), Some(hi)), hi),
{
    let lo = Seq::<u8>::empty();
    let k = first_gap(lo, hi);
    assert(frac_lt_at(lo, hi, k));
    assert(digit(lo, k) == 0);
    assert(k < hi.len());
    assert forall|j: int| 0 <= j < k implies hi[j] == 0 by {
        assert(digit(lo, j) == digit(hi, j));
    }
    let out = between_spec(lo, Some(hi));
    if digit(lo, k) + 1 < digit(hi, k) {
        assert(out == lo_digits(lo, k).push(((digit(lo, k) + digit(hi, k)) / 2) as u8));
        assert(lex_lt_at(out, hi, k));
    } else {
        assert(below_255_from(lo, k + 1) == k + 1);
        assert(out == lo_digits(lo, k + 1).push(((digit(lo, k + 1) + 256) / 2) as u8));
        assert(out[k] == 0);
        assert(lex_lt_at(out, hi, k));
    }
}

proof fn lemma_chain(ks: Seq<Seq<u8>>, i: int, j: int)
    requires
        0 <= i < j < ks.len(),
        forall|k: int| 0 < k < ks.len() ==> #[trigger] ks[k] == between_spec(ks[k - 1], None),
    ensures
        lex_lt(ks[i], ks[j]),
    decreases j - i,
{
    lemma_after_above(ks[j - 1]);
    assert(ks[j] == between_spec(ks[j - 1], None));
    if i < j - 1 {
        lemma_chain(ks, i, j - 1);
        lemma_lex_lt_transitive(ks[i], ks[j - 1], ks[j]);
    }
}

/// Keys appended one after another, each generated after the one before, increase: the
/// order of the appends is the order of the keys.
pub proof fn law_appends_increase(ks: Seq<Seq<u8>>)
    requires
        forall|k: int| 0 < k < ks.len() ==> #[trigger] ks[k] == between_spec(ks[k - 1], None),
    ensures
        forall|i: int, j: int| 0 <= i < j < ks.len() ==> lex_lt(ks[i], ks[j]),
{
    assert forall|i: int, j: int| 0 <= i < j < ks.len() implies lex_lt(ks[i], ks[j]) by {
        lemma_chain(ks, i, j);
    }
}

impl FracIndex {
    /// A copy of this key.
    pub fn duplicate(&self) -> (r: FracIndex)
        ensures
            r@ == self@,
    {
        FracIndex(self.0.clone())
    }

    /// Generate a key strictly between `lo` and `hi`. `None` is an open end (`lo` = 0.0,
    /// `hi` = 1.0). As fractions, `lo` must lie below `hi`. The key is `between_spec`: the
    /// digits of `lo` up to the first place where a digit fits between the bounds, then the
    /// middle digit there. It is canonical and lies strictly between the bounds both as a
    /// fraction and lexicographically.
    pub fn between(lo: Option<&FracIndex>, hi: Option<&FracIndex>) -> (m: FracIndex)
        requires
            hi matches Some(h) ==> frac_lt(lower_digits(lo), h@),
        ensures
            m@ == between_spec(lower_digits(lo), upper_digits(hi)),
            canonical(m@),
            lo matches Some(l) ==> lex_lt(l@, m@) && frac_lt(l@, m@),
            hi matches Some(h) ==> lex_lt(m@, h@) && frac_lt(m@, h@),
    {
        let empty: Vec<u8> = Vec::new();
        let lo_v: &Vec<u8> = match lo {
            Some(x) => &x.0,
            None => &empty,
        };
        let hi_v: &Vec<u8> = match hi {
            Some(x) => &x.0,
            None => &empty,
        };
        let ghost lo_s = lo_v@;
        let ghost hi_s = hi_v@;
        assert(lo_s == lower_digits(lo));
        let bounded = hi.is_some();
        let mut open = !bounded;
        let mut out: Vec<u8> = Vec::new();
        let mut i: usize = 0;
        // Phase "bounded": the first digit on which `lo` falls below `hi`.
        let ghost k: int = if bounded {
            choose|k: int| frac_lt_at(lo_s, hi_s, k)
        } else {
            0
        };
        // Phase "open": the digit on which the output fell below `hi`.
        let ghost mut t: int = 0;
        proof {
            if bounded {
                assert(frac_lt_at(lo_s, hi_s, k));
                assert(upper_digits(hi) == Some(hi_s));
                assert(first_gap(lo_s, hi_s) == k);
            } else {
                assert(upper_digits(hi) is None);
            }
        }
        loop
            invariant
                lo_v@ == lo_s,
                hi_v@ == hi_s,
                lo_s == lower_digits(lo),
                bounded == hi.is_some(),
                bounded ==> hi_s == hi.unwrap()@,
                bounded ==> upper_digits(hi) == Some(hi_s) && first_gap(lo_s, hi_s) == k,
                !bounded ==> upper_digits(hi) is None,
                !bounded ==> open,
                out@.len() == i,
                i <= lo_s.len() + hi_s.len(),
                forall|j: int| 0 <= j < i ==> out@[j] as int == digit(lo_s, j),
                !open ==> {
                    &&& i <= k < hi_s.len()
                    &&& frac_lt_at(lo_s, hi_s, k)
                },
                open && bounded ==> {
                    &&& 0 <= t < i
                    &&& t < hi_s.len()
                    &&& frac_lt_at(lo_s, hi_s, t)
                    &&& t == k
                    &&& digit(lo_s, k) + 1 == digit(hi_s, k)
                },
                open ==> forall|j: int|
                    (if bounded {
                        t + 1
                    } else {
                        0
                    }) <= j < i ==> digit(lo_s, j) == 255,
                open ==> (if bounded {
                    t + 1
                } else {
                    0
                }) <= i,
            decreases lo_s.len() + hi_s.len() - i,
        {
            let l: u16 = if i < lo_v.len() {
                lo_v[i] as u16
            } else {
                0
            };
            let h: u16 = if open {
                256
            } else if i < hi_v.len() {
                hi_v[i] as u16
            } else {
                0
            };
            assert(l as int == digit(lo_s, i as int));
            assert(!open ==> h as int == digit(hi_s, i as int));
            proof {
                if !open && (i as int) < k {
                    assert(digit(lo_s, i as int) == digit(hi_s, i as int));
                }
            }
            if l + 1 < h {
                let mid: u16 = (l + h) / 2;
                out.push(mid as u8);
                let m = FracIndex(out);
                proof {
                    let ms = m@;
                    assert(forall|j: int| 0 <= j < i ==> digit(ms, j) == digit(lo_s, j));
                    assert(digit(ms, i as int) == mid);
                    assert(frac_lt_at(lo_s, ms, i as int));
                    assert forall|j: int| 0 <= j < i && j < lo_s.len() implies ms[j] == lo_s[j] by {
                        assert(digit(ms, j) == digit(lo_s, j));
                    }
                    if lo.is_some() {
                        if (i as int) < lo_s.len() {
                            assert(lex_lt_at(lo_s, ms, i as int));
                        } else {
                            assert(lex_lt_at(lo_s, ms, lo_s.len() as int));
                        }
                    }
                    if bounded {
                        if open {
                            assert forall|j: int| 0 <= j < t implies ms[j] == hi_s[j] by {
                                assert(digit(ms, j) == digit(lo_s, j));
                                assert(digit(lo_s, j) == digit(hi_s, j));
                            }
                            assert(lex_lt_at(ms, hi_s, t));
                            assert(frac_lt_at(ms, hi_s, t));
                        } else {
                            assert forall|j: int| 0 <= j < i implies ms[j] == hi_s[j] by {
                                assert(digit(ms, j) == digit(lo_s, j));
                                assert(digit(lo_s, j) == digit(hi_s, j));
                            }
                            assert(lex_lt_at(ms, hi_s, i as int));
                            assert(frac_lt_at(ms, hi_s, i as int));
                        }
                    }
                    // The exact key.
                    assert(ms.drop_last() =~= lo_digits(lo_s, i as int));
                    assert(ms =~= lo_digits(lo_s, i as int).push(mid as u8));
                    if open {
                        let from: int = if bounded {
                            t + 1
                        } else {
                            0
                        };
                        lemma_below_255_from(lo_s, from, i as int);
                        assert(between_spec(lo_s, upper_digits(hi)) == open_key(lo_s, from));
                    } else {
                        if (i as int) < k {
                            assert(digit(lo_s, i as int) == digit(hi_s, i as int));
                        }
                        assert(i as int == k);
                    }
                }
                return m;
            }
            out.push(l as u8);
            if l < h {
                proof {
                    if !open {
                        assert(frac_lt_at(lo_s, hi_s, i as int));
                        if (i as int) < k {
                            assert(digit(lo_s, i as int) == digit(hi_s, i as int));
                        }
                    }
                    t = if open { t } else { i as int };
                }
                open = true;
            }
            i = i + 1;
        }
    }

    /// A key appended after the current maximum `last`.
    pub fn after(last: Option<&FracIndex>) -> (m: FracIndex)
        ensures
            m@ == between_spec(lower_digits(last), None),
            canonical(m@),
            last matches Some(l) ==> lex_lt(l@, m@) && frac_lt(l@, m@),
    {
        FracIndex::between(last, None)
    }

    /// A key prepended before the current minimum `first`, which must stand for a fraction
    /// above zero.
    pub fn before(first: Option<&FracIndex>) -> (m: FracIndex)
        requires
            first matches Some(f) ==> frac_lt(Seq::empty(), f@),
        ensures
            m@ == between_spec(Seq::empty(), upper_digits(first)),
            canonical(m@),
            first matches Some(f) ==> lex_lt(m@, f@) && frac_lt(m@, f@),
    {
        FracIndex::between(None, first)
    }
}

} // verus!
