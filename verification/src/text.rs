//! Sequence and string helpers shared by the parsers, scanners and formatters:
//! substring search, prefixes, decimal rendering, and the few character
//! classifications that std provides without a vstd specification.

use vstd::prelude::*;
use vstd::string::*;

verus! {

/// `needle` occurs in `hay` starting at position `i`.
pub open spec fn occurs_at<A>(hay: Seq<A>, needle: Seq<A>, i: int) -> bool {
    &&& 0 <= i
    &&& i + needle.len() <= hay.len()
    &&& hay.subrange(i, i + needle.len()) == needle
}

/// `needle` occurs somewhere in `hay` (the empty sequence occurs everywhere).
pub open spec fn contains_seq<A>(hay: Seq<A>, needle: Seq<A>) -> bool {
    exists|i: int| occurs_at(hay, needle, i)
}

/// `s` begins with `prefix`.
pub open spec fn has_prefix<A>(s: Seq<A>, prefix: Seq<A>) -> bool {
    occurs_at(s, prefix, 0)
}

/// `s` ends with `suffix`.
pub open spec fn has_suffix<A>(s: Seq<A>, suffix: Seq<A>) -> bool {
    suffix.len() <= s.len() && occurs_at(s, suffix, s.len() - suffix.len())
}

/// The character of the decimal digit `d` (`d < 10`).
pub open spec fn digit_char(d: nat) -> char {
    (48 + d) as char
}

/// Decimal rendering of a natural number, without leading zeros.
pub open spec fn decimal(n: nat) -> Seq<char>
    decreases n,
{
    if n < 10 {
        seq![digit_char(n)]
    } else {
        decimal(n / 10).push(digit_char(n % 10))
    }
}

/// Decimal rendering of a signed integer: a minus sign before negative values.
pub open spec fn signed_decimal(n: int) -> Seq<char> {
    if n < 0 {
        seq!['-'] + decimal((-n) as nat)
    } else {
        decimal(n as nat)
    }
}

/// What `str::to_lowercase` returns for a character sequence (full Unicode case mapping).
pub uninterp spec fn lowercase(s: Seq<char>) -> Seq<char>;

/// Whether the character has the Unicode `White_Space` property, which is
/// what `char::is_whitespace` answers: the 25 code points U+0009 to U+000D,
/// U+0020, U+0085, U+00A0, U+1680, U+2000 to U+200A, U+2028, U+2029,
/// U+202F, U+205F and U+3000.
pub open spec fn is_white_space(c: char) -> bool {
    let u = c as u32;
    (9 <= u && u <= 13) || u == 32 || u == 0x85 || u == 0xA0 || u == 0x1680 || (0x2000 <= u && u <= 0x200A)
        || u == 0x2028 || u == 0x2029 || u == 0x202F || u == 0x205F || u == 0x3000
}

/// What `char::is_alphanumeric` answers: whether the character is alphabetic or numeric in Unicode.
pub uninterp spec fn is_alphanumeric_char(c: char) -> bool;

/// Lower-cases a string with `str::to_lowercase`.
#[verifier::external_body]
pub fn to_lowercase(s: &str) -> (r: String)
    ensures
        r@ == lowercase(s@),
{
    s.to_lowercase()
}

/// Whether a character is whitespace, as `char::is_whitespace` answers;
/// among ASCII characters exactly space, tab, line feed, vertical tab, form
/// feed and carriage return are.
pub fn is_whitespace(c: char) -> (b: bool)
    ensures
        b == is_white_space(c),
        (c as u32) < 128 ==> (b <==> (c == ' ' || c == '\t' || c == '\n' || c == '\x0B' || c
            == '\x0C' || c == '\r')),
{
    let u = c as u32;
    (9 <= u && u <= 13) || u == 32 || u == 0x85 || u == 0xA0 || u == 0x1680 || (0x2000 <= u && u <= 0x200A)
        || u == 0x2028 || u == 0x2029 || u == 0x202F || u == 0x205F || u == 0x3000
}

/// Asks `char::is_alphanumeric`; among ASCII characters exactly letters and digits qualify.
#[verifier::external_body]
pub fn is_alphanumeric(c: char) -> (b: bool)
    ensures
        b == is_alphanumeric_char(c),
        (c as u32) < 128 ==> (b <==> (('a' <= c && c <= 'z') || ('A' <= c && c <= 'Z') || ('0'
            <= c && c <= '9'))),
{
    c.is_alphanumeric()
}

/// Appends the decimal digits of `n`.
fn push_decimal(n: u64, out: &mut Vec<char>)
    ensures
        final(out)@ == old(out)@ + decimal(n as nat),
    decreases n,
{
    let ghost start = out@;
    if n >= 10 {
        push_decimal(n / 10, out);
    }
    let d: u8 = (n % 10) as u8;
    out.push((48u8 + d) as char);
    assert(out@ =~= start + decimal(n as nat));
}

/// Renders an unsigned integer in decimal, as `u64::to_string` does.
pub fn u64_to_decimal(n: u64) -> (s: String)
    ensures
        s@ == decimal(n as nat),
{
    let mut out: Vec<char> = Vec::new();
    push_decimal(n, &mut out);
    assert(out@ =~= decimal(n as nat));
    string_from_chars(out.as_slice())
}

/// Renders a signed integer in decimal, as `i64::to_string` does.
pub fn i64_to_decimal(n: i64) -> (s: String)
    ensures
        s@ == signed_decimal(n as int),
{
    let mut out: Vec<char> = Vec::new();
    let m: u64 = if n < 0 {
        out.push('-');
        (0i128 - n as i128) as u64
    } else {
        n as u64
    };
    push_decimal(m, &mut out);
    assert(out@ =~= signed_decimal(n as int));
    string_from_chars(out.as_slice())
}

/// Builds a `String` from characters with `String::from_iter`.
#[verifier::external_body]
pub fn string_from_chars(v: &[char]) -> (s: String)
    ensures
        s@ == v@,
{
    v.iter().collect::<String>()
}

/// Appends one character with `String::push`.
#[verifier::external_body]
pub fn push_char(s: &mut String, c: char)
    ensures
        final(s)@ == old(s)@.push(c),
{
    s.push(c)
}

/// The characters of a string, in order.
pub fn chars_of(s: &str) -> (v: Vec<char>)
    ensures
        v@ == s@,
{
    let n = s.unicode_len();
    let mut v: Vec<char> = Vec::new();
    let mut i: usize = 0;
    while i < n
        invariant
            n == s@.len(),
            i <= n,
            v@ == s@.subrange(0, i as int),
        decreases n - i,
    {
        v.push(s.get_char(i));
        i += 1;
    }
    assert(v@ =~= s@);
    v
}

/// A fresh string holding `a` followed by `b`.
pub fn concat2(a: &str, b: &str) -> (s: String)
    ensures
        s@ == a@ + b@,
{
    let mut s = String::from_str(a);
    s.append(b);
    s
}

/// A fresh string holding `a`, `b` and `c` in turn.
pub fn concat3(a: &str, b: &str, c: &str) -> (s: String)
    ensures
        s@ == a@ + b@ + c@,
{
    let mut s = String::from_str(a);
    s.append(b);
    s.append(c);
    s
}

/// Whether `needle` occurs in `hay` starting at `i`.
pub fn occurs_at_chars(hay: &[char], needle: &[char], i: usize) -> (b: bool)
    requires
        i + needle@.len() <= hay@.len(),
    ensures
        b == occurs_at(hay@, needle@, i as int),
{
    let n = needle.len();
    let len = hay.len();
    let mut k: usize = 0;
    while k < n
        invariant
            n == needle@.len(),
            len == hay@.len(),
            i + n <= hay@.len(),
            k <= n,
            forall|t: int| 0 <= t < k ==> hay@[i + t] == needle@[t],
        decreases n - k,
    {
        if hay[i + k] != needle[k] {
            assert(hay@.subrange(i as int, i + n)[k as int] != needle@[k as int]);
            return false;
        }
        k += 1;
    }
    assert(hay@.subrange(i as int, i + n) =~= needle@);
    true
}

/// Whether `needle` occurs in `hay` starting at `i`.
pub fn occurs_at_bytes(hay: &[u8], needle: &[u8], i: usize) -> (b: bool)
    requires
        i + needle@.len() <= hay@.len(),
    ensures
        b == occurs_at(hay@, needle@, i as int),
{
    let n = needle.len();
    let len = hay.len();
    let mut k: usize = 0;
    while k < n
        invariant
            n == needle@.len(),
            len == hay@.len(),
            i + n <= hay@.len(),
            k <= n,
            forall|t: int| 0 <= t < k ==> hay@[i + t] == needle@[t],
        decreases n - k,
    {
        if hay[i + k] != needle[k] {
            assert(hay@.subrange(i as int, i + n)[k as int] != needle@[k as int]);
            return false;
        }
        k += 1;
    }
    assert(hay@.subrange(i as int, i + n) =~= needle@);
    true
}

/// The first position at which `needle` occurs in `hay`, if any.
pub fn find_chars(hay: &[char], needle: &[char]) -> (r: Option<usize>)
    ensures
        match r {
            Some(i) => occurs_at(hay@, needle@, i as int) && forall|j: int|
                0 <= j < i ==> !occurs_at(hay@, needle@, j),
            None => !contains_seq(hay@, needle@),
        },
{
    let n = needle.len();
    let len = hay.len();
    if n > len {
        return None;
    }
    if n == 0 {
        assert(occurs_at(hay@, needle@, 0int)) by {
            assert(hay@.subrange(0, 0) =~= needle@);
        }
        return Some(0);
    }
    let mut i: usize = 0;
    while i <= len - n
        invariant
            n == needle@.len(),
            len == hay@.len(),
            1 <= n <= len,
            i <= len - n + 1,
            forall|j: int| 0 <= j < i ==> !occurs_at(hay@, needle@, j),
        decreases len - i,
    {
        if occurs_at_chars(hay, needle, i) {
            return Some(i);
        }
        i += 1;
    }
    None
}

/// The first position at which `needle` occurs in `hay`, if any.
pub fn find_bytes(hay: &[u8], needle: &[u8]) -> (r: Option<usize>)
    ensures
        match r {
            Some(i) => occurs_at(hay@, needle@, i as int) && forall|j: int|
                0 <= j < i ==> !occurs_at(hay@, needle@, j),
            None => !contains_seq(hay@, needle@),
        },
{
    let n = needle.len();
    let len = hay.len();
    if n > len {
        return None;
    }
    if n == 0 {
        assert(occurs_at(hay@, needle@, 0int)) by {
            assert(hay@.subrange(0, 0) =~= needle@);
        }
        return Some(0);
    }
    let mut i: usize = 0;
    while i <= len - n
        invariant
            n == needle@.len(),
            len == hay@.len(),
            1 <= n <= len,
            i <= len - n + 1,
            forall|j: int| 0 <= j < i ==> !occurs_at(hay@, needle@, j),
        decreases len - i,
    {
        if occurs_at_bytes(hay, needle, i) {
            return Some(i);
        }
        i += 1;
    }
    None
}

/// Whether `needle` occurs in `hay` (`str::contains`).
pub fn str_contains(hay: &str, needle: &str) -> (b: bool)
    ensures
        b == contains_seq(hay@, needle@),
{
    let h = chars_of(hay);
    let n = chars_of(needle);
    find_chars(h.as_slice(), n.as_slice()).is_some()
}

/// Whether `s` starts with `prefix` (`str::starts_with`).
pub fn str_starts_with(s: &str, prefix: &str) -> (b: bool)
    ensures
        b == has_prefix(s@, prefix@),
{
    let h = chars_of(s);
    let p = chars_of(prefix);
    if p.len() > h.len() {
        return false;
    }
    occurs_at_chars(h.as_slice(), p.as_slice(), 0)
}

/// Whether `s` ends with `suffix` (`str::ends_with`).
pub fn str_ends_with(s: &str, suffix: &str) -> (b: bool)
    ensures
        b == has_suffix(s@, suffix@),
{
    let h = chars_of(s);
    let p = chars_of(suffix);
    if p.len() > h.len() {
        return false;
    }
    occurs_at_chars(h.as_slice(), p.as_slice(), h.len() - p.len())
}

/// Whether two strings hold the same characters.
pub fn str_eq(a: &str, b: &str) -> (r: bool)
    ensures
        r == (a@ == b@),
{
    let x = chars_of(a);
    let y = chars_of(b);
    if x.len() != y.len() {
        return false;
    }
    let r = occurs_at_chars(x.as_slice(), y.as_slice(), 0);
    assert(x@.subrange(0, y@.len() as int) =~= x@);
    r
}

} // verus!
