//! Content keys of embedded media: the 64-bit FNV-1a hash of the bytes, rendered as
//! sixteen lowercase hex digits.

use vstd::prelude::*;
use crate::strings::push_char;

verus! {

pub const FNV_OFFSET: u64 = 0xcbf2_9ce4_8422_2325u64;

pub const FNV_PRIME: u64 = 0x0000_0100_0000_01b3u64;

/// The 64-bit FNV-1a hash of `s`.
pub open spec fn fnv1a(s: Seq<u8>) -> u64
    decreases s.len(),
{
    if s.len() == 0 {
        FNV_OFFSET
    } else {
        (fnv1a(s.drop_last()) ^ (s.last() as u64)).wrapping_mul(FNV_PRIME)
    }
}

/// The lowercase hex digit for `d` (`0..16`).
pub open spec fn hex_digit_char(d: u64) -> char {
    if d < 10 {
        (d + 48) as char
    } else {
        (d + 87) as char
    }
}

/// The value of a lowercase hex digit, if `c` is one.
pub open spec fn hex_digit_value(c: char) -> Option<u64> {
    if '0' <= c <= '9' {
        Some((c as u64 - 48) as u64)
    } else if 'a' <= c <= 'f' {
        Some((c as u64 - 87) as u64)
    } else {
        None
    }
}

/// The `i`-th of the sixteen hex digits of `h`, most significant first.
pub open spec fn nibble(h: u64, i: int) -> u64 {
    (h >> ((60 - 4 * i) as u64)) & 15
}

/// `h` as sixteen lowercase hex digits, most significant first.
pub open spec fn hex16(h: u64) -> Seq<char> {
    Seq::new(16, |i: int| hex_digit_char(nibble(h, i)))
}

/// The number whose hex digits are the first `n` characters of `s` (all lowercase hex
/// digits).
pub open spec fn hex_fold(s: Seq<char>, n: nat) -> u64
    decreases n,
{
    if n == 0 {
        0
    } else {
        (hex_fold(s, (n - 1) as nat) << 4u64) | hex_digit_value(s[n - 1]).unwrap()
    }
}

/// The number a media key names: `Some` exactly for sixteen lowercase hex digits.
pub open spec fn parse_hex16(s: Seq<char>) -> Option<u64> {
    if s.len() == 16 && forall|i: int| 0 <= i < 16 ==> #[trigger] hex_digit_value(s[i]) is Some {
        Some(hex_fold(s, 16))
    } else {
        None
    }
}

pub proof fn lemma_hex_digit_roundtrip(d: u64)
    requires
        d < 16,
    ensures
        hex_digit_value(hex_digit_char(d)) == Some(d),
{
}

/// A rendered key parses back to its number.
pub proof fn lemma_parse_hex16(h: u64)
    ensures
        parse_hex16(hex16(h)) == Some(h),
{
    let s = hex16(h);
    assert forall|i: int| 0 <= i < 16 implies #[trigger] hex_digit_value(s[i]) == Some(nibble(h, i)) by {
        let k: u64 = (60 - 4 * i) as u64;
        assert(((h >> k) & 15) < 16) by (bit_vector);
        lemma_hex_digit_roundtrip(nibble(h, i));
    }
    reveal_with_fuel(hex_fold, 17);
    let n0 = (h >> 60u64) & 15;
    let n1 = (h >> 56u64) & 15;
    let n2 = (h >> 52u64) & 15;
    let n3 = (h >> 48u64) & 15;
    let n4 = (h >> 44u64) & 15;
    let n5 = (h >> 40u64) & 15;
    let n6 = (h >> 36u64) & 15;
    let n7 = (h >> 32u64) & 15;
    let n8 = (h >> 28u64) & 15;
    let n9 = (h >> 24u64) & 15;
    let n10 = (h >> 20u64) & 15;
    let n11 = (h >> 16u64) & 15;
    let n12 = (h >> 12u64) & 15;
    let n13 = (h >> 8u64) & 15;
    let n14 = (h >> 4u64) & 15;
    let n15 = (h >> 0u64) & 15;
    assert(hex_digit_value(s[0]) == Some(n0));
    assert(hex_digit_value(s[1]) == Some(n1));
    assert(hex_digit_value(s[2]) == Some(n2));
    assert(hex_digit_value(s[3]) == Some(n3));
    assert(hex_digit_value(s[4]) == Some(n4));
    assert(hex_digit_value(s[5]) == Some(n5));
    assert(hex_digit_value(s[6]) == Some(n6));
    assert(hex_digit_value(s[7]) == Some(n7));
    assert(hex_digit_value(s[8]) == Some(n8));
    assert(hex_digit_value(s[9]) == Some(n9));
    assert(hex_digit_value(s[10]) == Some(n10));
    assert(hex_digit_value(s[11]) == Some(n11));
    assert(hex_digit_value(s[12]) == Some(n12));
    assert(hex_digit_value(s[13]) == Some(n13));
    assert(hex_digit_value(s[14]) == Some(n14));
    assert(hex_digit_value(s[15]) == Some(n15));
    assert(((((((((((((((((0u64 << 4u64) | n0) << 4u64 | n1) << 4u64 | n2) << 4u64 | n3) << 4u64
        | n4) << 4u64 | n5) << 4u64 | n6) << 4u64 | n7) << 4u64 | n8) << 4u64 | n9) << 4u64 | n10)
        << 4u64 | n11) << 4u64 | n12) << 4u64 | n13) << 4u64 | n14) << 4u64 | n15 == h) by (bit_vector)
        requires
            n0 == (h >> 60u64) & 15,
            n1 == (h >> 56u64) & 15,
            n2 == (h >> 52u64) & 15,
            n3 == (h >> 48u64) & 15,
            n4 == (h >> 44u64) & 15,
            n5 == (h >> 40u64) & 15,
            n6 == (h >> 36u64) & 15,
            n7 == (h >> 32u64) & 15,
            n8 == (h >> 28u64) & 15,
            n9 == (h >> 24u64) & 15,
            n10 == (h >> 20u64) & 15,
            n11 == (h >> 16u64) & 15,
            n12 == (h >> 12u64) & 15,
            n13 == (h >> 8u64) & 15,
            n14 == (h >> 4u64) & 15,
            n15 == (h >> 0u64) & 15,
    ;
}

/// The 64-bit FNV-1a hash of `bytes`.
pub fn fnv1a_hash(bytes: &[u8]) -> (h: u64)
    ensures
        h == fnv1a(bytes@),
{
    let mut hash: u64 = FNV_OFFSET;
    let mut i: usize = 0;
    while i < bytes.len()
        invariant
            i <= bytes@.len(),
            hash == fnv1a(bytes@.take(i as int)),
        decreases bytes@.len() - i,
    {
        assert(bytes@.take(i as int + 1).drop_last() =~= bytes@.take(i as int));
        hash = hash ^ (bytes[i] as u64);
        hash = hash.wrapping_mul(FNV_PRIME);
        i = i + 1;
    }
    assert(bytes@.take(bytes@.len() as int) =~= bytes@);
    hash
}

fn hex_digit(d: u64) -> (c: char)
    requires
        d < 16,
    ensures
        c == hex_digit_char(d),
{
    match d {
        0 => '0',
        1 => '1',
        2 => '2',
        3 => '3',
        4 => '4',
        5 => '5',
        6 => '6',
        7 => '7',
        8 => '8',
        9 => '9',
        10 => 'a',
        11 => 'b',
        12 => 'c',
        13 => 'd',
        14 => 'e',
        _ => 'f',
    }
}

/// `h` rendered as sixteen lowercase hex digits.
pub fn hex16_string(h: u64) -> (s: String)
    ensures
        s@ == hex16(h),
{
    let mut s = String::new();
    let mut i: u64 = 0;
    while i < 16
        invariant
            i <= 16,
            s@ == hex16(h).take(i as int),
        decreases 16 - i,
    {
        let sh: u64 = 60 - 4 * i;
        let d = (h >> sh) & 15;
        assert(d < 16) by (bit_vector)
            requires d == (h >> sh) & 15;
        assert(d == nibble(h, i as int));
        push_char(&mut s, hex_digit(d));
        assert(s@ =~= hex16(h).take(i as int + 1));
        i = i + 1;
    }
    assert(hex16(h).take(16) =~= hex16(h));
    s
}

/// The content key of `bytes`: its FNV-1a hash as sixteen lowercase hex digits.
pub fn media_key(bytes: &[u8]) -> (k: String)
    ensures
        k@ == hex16(fnv1a(bytes@)),
{
    hex16_string(fnv1a_hash(bytes))
}

fn hex_value(c: char) -> (v: Option<u64>)
    ensures
        v == hex_digit_value(c),
{
    if '0' <= c && c <= '9' {
        Some((c as u32 - 48) as u64)
    } else if 'a' <= c && c <= 'f' {
        Some((c as u32 - 87) as u64)
    } else {
        None
    }
}

/// The number a media key names, if it is sixteen lowercase hex digits.
pub fn parse_media_key(key: &str) -> (h: Option<u64>)
    ensures
        h == parse_hex16(key@),
{
    if key.unicode_len() != 16 {
        return None;
    }
    let mut acc: u64 = 0;
    let mut i: usize = 0;
    while i < 16
        invariant
            key@.len() == 16,
            i <= 16,
            forall|j: int| 0 <= j < i ==> #[trigger] hex_digit_value(key@[j]) is Some,
            acc == hex_fold(key@, i as nat),
        decreases 16 - i,
    {
        let c = key.get_char(i);
        match hex_value(c) {
            Some(d) => {
                acc = (acc << 4u64) | d;
            },
            None => {
                return None;
            },
        }
        i = i + 1;
    }
    Some(acc)
}

} // verus!
