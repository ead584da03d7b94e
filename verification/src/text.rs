//! Textual forms of numbers, identifiers and byte strings: decimal,
//! lowercase hexadecimal and the hyphenated UUID form.

use vstd::prelude::*;

verus! {

/// The lowercase hexadecimal digit for `v` in `0..16`.
pub open spec fn hex_char(v: int) -> char {
    if v < 10 { (48 + v) as char } else { (87 + v) as char }
}

/// The last `n` hexadecimal digits of `x`, most significant first.
pub open spec fn hex_digits(x: nat, n: nat) -> Seq<char>
    decreases n,
{
    if n == 0 {
        Seq::empty()
    } else {
        hex_digits(x / 16, (n - 1) as nat).push(hex_char((x % 16) as int))
    }
}

/// The hyphenated lowercase form of a UUID (8-4-4-4-12 hexadecimal digits).
pub open spec fn hyphenated(x: u128) -> Seq<char> {
    let d = hex_digits(x as nat, 32);
    d.subrange(0, 8) + seq!['-'] + d.subrange(8, 12) + seq!['-'] + d.subrange(12, 16) + seq!['-']
        + d.subrange(16, 20) + seq!['-'] + d.subrange(20, 32)
}

/// Each byte as two lowercase hexadecimal digits.
pub open spec fn hex_of_bytes(b: Seq<u8>) -> Seq<char>
    decreases b.len(),
{
    if b.len() == 0 {
        Seq::empty()
    } else {
        hex_of_bytes(b.drop_last()) + seq![
            hex_char((b.last() / 16) as int),
            hex_char((b.last() % 16) as int),
        ]
    }
}

/// `uuid::Uuid::from_u128(x).to_string()`: the hyphenated lowercase form.
#[verifier::external_body]
pub(crate) fn uuid_text(x: u128) -> (r: String)
    ensures
        r@ == hyphenated(x),
{
    uuid::Uuid::from_u128(x).to_string()
}

/// `hex::encode`: each byte as two lowercase hexadecimal digits.
#[verifier::external_body]
pub(crate) fn hex_encode(bytes: &[u8]) -> (r: String)
    ensures
        r@ == hex_of_bytes(bytes@),
{
    hex::encode(bytes)
}

/// Which bytes a hexadecimal string denotes, when it is well formed (an
/// even number of hexadecimal digits of either case).
pub open spec fn hex_digit_value(c: char) -> Option<u8> {
    if '0' <= c && c <= '9' {
        Some((c as u32 - 48) as u8)
    } else if 'a' <= c && c <= 'f' {
        Some((c as u32 - 87) as u8)
    } else if 'A' <= c && c <= 'F' {
        Some((c as u32 - 55) as u8)
    } else {
        None
    }
}

pub open spec fn hex_decoded(s: Seq<char>) -> Option<Seq<u8>>
    decreases s.len(),
{
    if s.len() == 0 {
        Some(Seq::empty())
    } else if s.len() == 1 {
        None
    } else {
        match (
            hex_decoded(s.subrange(0, s.len() - 2)),
            hex_digit_value(s[s.len() - 2]),
            hex_digit_value(s[s.len() - 1]),
        ) {
            (Some(prefix), Some(hi), Some(lo)) => Some(prefix.push((hi * 16 + lo) as u8)),
            _ => None,
        }
    }
}

/// `hex::decode`: the bytes denoted by a well-formed hexadecimal string;
/// otherwise the text of the crate's error (odd length or the first
/// character that is not a hexadecimal digit), which is not stated here.
#[verifier::external_body]
pub(crate) fn hex_decode(s: &str) -> (r: Result<Vec<u8>, String>)
    ensures
        r is Ok <==> hex_decoded(s@) is Some,
        r is Ok ==> r->Ok_0@ == hex_decoded(s@)->0,
{
    hex::decode(s).map_err(|e| e.to_string())
}

/// The decimal digit character for `v` in `0..10`.
pub open spec fn dec_char(v: int) -> char {
    (48 + v) as char
}

/// The decimal form of `n` without leading zeros (`"0"` for zero).
pub open spec fn dec_digits(n: nat) -> Seq<char>
    decreases n,
{
    if n < 10 {
        seq![dec_char(n as int)]
    } else {
        dec_digits(n / 10).push(dec_char((n % 10) as int))
    }
}

/// The last `w` decimal digits of `n`, most significant first (zero-padded).
pub open spec fn dec_fixed(n: nat, w: nat) -> Seq<char>
    decreases w,
{
    if w == 0 {
        Seq::empty()
    } else {
        dec_fixed(n / 10, (w - 1) as nat).push(dec_char((n % 10) as int))
    }
}

/// The one-character string holding the decimal digit `d`.
fn digit_str(d: u64) -> (r: &'static str)
    requires
        d < 10,
    ensures
        r@ == seq![dec_char(d as int)],
{
    proof {
        reveal_strlit("0");
        reveal_strlit("1");
        reveal_strlit("2");
        reveal_strlit("3");
        reveal_strlit("4");
        reveal_strlit("5");
        reveal_strlit("6");
        reveal_strlit("7");
        reveal_strlit("8");
        reveal_strlit("9");
    }
    if d == 0 {
        "0"
    } else if d == 1 {
        "1"
    } else if d == 2 {
        "2"
    } else if d == 3 {
        "3"
    } else if d == 4 {
        "4"
    } else if d == 5 {
        "5"
    } else if d == 6 {
        "6"
    } else if d == 7 {
        "7"
    } else if d == 8 {
        "8"
    } else {
        "9"
    }
}

/// Appends the decimal form of `n` to `out`.
pub fn push_decimal(out: &mut String, n: u64)
    ensures
        final(out)@ == old(out)@ + dec_digits(n as nat),
    decreases n,
{
    if n < 10 {
        out.append(digit_str(n));
    } else {
        push_decimal(out, n / 10);
        out.append(digit_str(n % 10));
        assert(dec_digits(n as nat) == dec_digits((n / 10) as nat).push(dec_char((n % 10) as int)));
    }
}

/// Appends the last `w` decimal digits of `n` to `out`, zero-padded.
pub fn push_decimal_fixed(out: &mut String, n: u64, w: u32)
    ensures
        final(out)@ == old(out)@ + dec_fixed(n as nat, w as nat),
    decreases w,
{
    if w > 0 {
        push_decimal_fixed(out, n / 10, w - 1);
        out.append(digit_str(n % 10));
        assert(dec_fixed(n as nat, w as nat) == dec_fixed((n / 10) as nat, (w - 1) as nat).push(
            dec_char((n % 10) as int),
        ));
    } else {
        assert(old(out)@ + dec_fixed(n as nat, 0) =~= old(out)@);
    }
}

/// Unicode `White_Space`, as `char::is_whitespace` tests it.
pub open spec fn is_ws(c: char) -> bool {
    ('\u{9}' <= c && c <= '\u{d}') || c == ' ' || c == '\u{85}' || c == '\u{a0}' || c == '\u{1680}' || (
    '\u{2000}' <= c && c <= '\u{200a}') || c == '\u{2028}' || c == '\u{2029}' || c == '\u{202f}' || c
        == '\u{205f}' || c == '\u{3000}'
}

pub fn char_is_ws(c: char) -> (r: bool)
    ensures
        r == is_ws(c),
{
    ('\u{9}' <= c && c <= '\u{d}') || c == ' ' || c == '\u{85}' || c == '\u{a0}' || c == '\u{1680}' || (
    '\u{2000}' <= c && c <= '\u{200a}') || c == '\u{2028}' || c == '\u{2029}' || c == '\u{202f}' || c
        == '\u{205f}' || c == '\u{3000}'
}

/// Index of the first character at or after `i` that is not whitespace.
pub open spec fn ws_front(s: Seq<char>, i: int) -> int
    decreases s.len() - i,
{
    if 0 <= i < s.len() && is_ws(s[i]) { ws_front(s, i + 1) } else { i }
}

/// End of `s[lo..j]` once trailing whitespace is dropped.
pub open spec fn ws_back(s: Seq<char>, lo: int, j: int) -> int
    decreases j - lo,
{
    if lo < j && j <= s.len() && is_ws(s[j - 1]) { ws_back(s, lo, j - 1) } else { j }
}

/// `s` without leading and trailing whitespace (`str::trim`).
pub open spec fn trimmed(s: Seq<char>) -> Seq<char> {
    let a = ws_front(s, 0);
    s.subrange(a, ws_back(s, a, s.len() as int))
}

/// End of `s[..j]` once trailing `c` characters are dropped.
pub open spec fn strip_back(s: Seq<char>, c: char, j: int) -> int
    decreases j,
{
    if 0 < j && j <= s.len() && s[j - 1] == c { strip_back(s, c, j - 1) } else { j }
}

/// `s` without trailing `c` characters (`str::trim_end_matches(c)`).
pub open spec fn trimmed_end(s: Seq<char>, c: char) -> Seq<char> {
    s.subrange(0, strip_back(s, c, s.len() as int))
}

/// `str::trim`: `s` without leading and trailing whitespace.
pub fn trim_ws(s: &str) -> (r: String)
    ensures
        r@ == trimmed(s@),
{
    let n = s.unicode_len();
    let mut i: usize = 0;
    while i < n && char_is_ws(s.get_char(i))
        invariant
            n == s@.len(),
            0 <= i <= n,
            ws_front(s@, 0) == ws_front(s@, i as int),
        decreases n - i,
    {
        i = i + 1;
    }
    let mut j: usize = n;
    while j > i && char_is_ws(s.get_char(j - 1))
        invariant
            n == s@.len(),
            i <= j <= n,
            ws_front(s@, 0) == i,
            ws_back(s@, i as int, n as int) == ws_back(s@, i as int, j as int),
        decreases j - i,
    {
        j = j - 1;
    }
    String::from_str(s.substring_char(i, j))
}

/// `str::trim_end_matches(c)`: `s` without trailing `c` characters.
pub fn trim_end_char(s: &str, c: char) -> (r: String)
    ensures
        r@ == trimmed_end(s@, c),
{
    let n = s.unicode_len();
    let mut j: usize = n;
    while j > 0 && s.get_char(j - 1) == c
        invariant
            n == s@.len(),
            j <= n,
            strip_back(s@, c, n as int) == strip_back(s@, c, j as int),
        decreases j,
    {
        j = j - 1;
    }
    String::from_str(s.substring_char(0, j))
}

/// Whether `s` begins with `p`.
pub fn has_prefix(s: &str, p: &str) -> (r: bool)
    ensures
        r == (p@.len() <= s@.len() && s@.subrange(0, p@.len() as int) == p@),
{
    let n = s.unicode_len();
    let m = p.unicode_len();
    if m > n {
        return false;
    }
    let mut i: usize = 0;
    while i < m
        invariant
            n == s@.len(),
            m == p@.len(),
            m <= n,
            i <= m,
            forall|k: int| 0 <= k < i ==> s@[k] == p@[k],
        decreases m - i,
    {
        if s.get_char(i) != p.get_char(i) {
            assert(s@.subrange(0, m as int)[i as int] != p@[i as int]);
            return false;
        }
        i = i + 1;
    }
    assert(s@.subrange(0, m as int) =~= p@);
    true
}

} // verus!
