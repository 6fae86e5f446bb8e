//! Text encodings used by the marketplace API: the lenient Base64 decoder for
//! uploaded skill packages, and hexadecimal encoding and decoding of keys and
//! signatures.

use vstd::prelude::*;
use vstd::string::*;
use crate::text::{push_char};
use vstd::utf8::encode_utf8;

verus! {

// ── Base64 ───────────────────────────────────────────────────────────────────

/// Position of a byte in the standard Base64 alphabet, or -1.
pub open spec fn b64_index(c: u8) -> int {
    if 65 <= c && c <= 90 {
        c - 65
    } else if 97 <= c && c <= 122 {
        c - 97 + 26
    } else if 48 <= c && c <= 57 {
        c - 48 + 52
    } else if c == 43 {
        62
    } else if c == 47 {
        63
    } else {
        -1
    }
}

/// The byte belongs to the Base64 alphabet or is the padding `=`.
pub open spec fn b64_allowed(c: u8) -> bool {
    b64_index(c) >= 0 || c == 61
}

/// The bytes without the padding character `=`.
pub open spec fn without_padding(b: Seq<u8>) -> Seq<u8>
    decreases b.len(),
{
    if b.len() == 0 {
        seq![]
    } else if b.last() == 61 {
        without_padding(b.drop_last())
    } else {
        without_padding(b.drop_last()).push(b.last())
    }
}

/// Number of complete four-character groups.
pub open spec fn b64_groups(c: Seq<u8>) -> nat {
    c.len() / 4
}

/// How many characters are read: all of them, except a single character
/// left over after the complete groups, which holds no whole byte.
pub open spec fn b64_read_len(c: Seq<u8>) -> nat {
    if c.len() % 4 == 1 {
        (c.len() - 1) as nat
    } else {
        c.len()
    }
}

/// Every character that is read is in the alphabet.
pub open spec fn b64_groups_valid(c: Seq<u8>) -> bool {
    forall|i: int| 0 <= i < b64_read_len(c) ==> b64_index(#[trigger] c[i]) >= 0
}

/// The value of character `i`, zero past the end.
pub open spec fn b64_sextet_at(c: Seq<u8>, i: int) -> int {
    if i < c.len() {
        b64_index(c[i])
    } else {
        0
    }
}

/// The 24-bit value of group `g`; a last, shorter group counts its missing
/// characters as zero.
pub open spec fn b64_group_value(c: Seq<u8>, g: int) -> int {
    b64_sextet_at(c, 4 * g) * 262144 + b64_sextet_at(c, 4 * g + 1) * 4096 + b64_sextet_at(c, 4 * g + 2) * 64
        + b64_sextet_at(c, 4 * g + 3)
}

/// Byte `k` of the decoding: three bytes per group, most significant first.
pub open spec fn b64_byte(c: Seq<u8>, k: int) -> u8 {
    let v = b64_group_value(c, k / 3);
    (if k % 3 == 0 {
        v / 65536
    } else if k % 3 == 1 {
        (v / 256) % 256
    } else {
        v % 256
    }) as u8
}

/// The number of bytes the characters give: three per complete group, and
/// one or two for a last group of two or three characters.
pub open spec fn b64_decoded_len(c: Seq<u8>) -> nat {
    b64_groups(c) * 3 + if c.len() % 4 == 2 {
        1nat
    } else if c.len() % 4 == 3 {
        2nat
    } else {
        0nat
    }
}

/// The decoding of `c`.
pub open spec fn b64_decoded(c: Seq<u8>) -> Seq<u8> {
    Seq::new(b64_decoded_len(c), |k: int| b64_byte(c, k))
}

/// The alphabet byte of a value below 64.
pub open spec fn b64_char(v: int) -> u8 {
    if v < 26 {
        (65 + v) as u8
    } else if v < 52 {
        (97 + v - 26) as u8
    } else if v < 62 {
        (48 + v - 52) as u8
    } else if v == 62 {
        43
    } else {
        47
    }
}

/// Byte `k` of `b`, zero past its end.
pub open spec fn byte_or_zero(b: Seq<u8>, k: int) -> int {
    if 0 <= k < b.len() {
        b[k] as int
    } else {
        0
    }
}

/// The 24-bit value of the `g`-th three bytes of `b`, missing bytes zero.
pub open spec fn b64_triple(b: Seq<u8>, g: int) -> int {
    byte_or_zero(b, 3 * g) * 65536 + byte_or_zero(b, 3 * g + 1) * 256 + byte_or_zero(b, 3 * g + 2)
}

/// The `i`-th six-bit value of `b`: four per three bytes, most significant
/// first.
pub open spec fn b64_sextet(b: Seq<u8>, i: int) -> int {
    let v = b64_triple(b, i / 4);
    if i % 4 == 0 {
        v / 262144
    } else if i % 4 == 1 {
        (v / 4096) % 64
    } else if i % 4 == 2 {
        (v / 64) % 64
    } else {
        v % 64
    }
}

/// How many alphabet characters `n` bytes take: four per three bytes, and
/// two or three for one or two bytes left over.
pub open spec fn b64_data_len(n: nat) -> nat {
    (n / 3) * 4 + if n % 3 == 1 {
        2nat
    } else if n % 3 == 2 {
        3nat
    } else {
        0nat
    }
}

/// The standard Base64 encoding of `b`: its six-bit values as alphabet
/// characters, then `=` up to a whole group of four.
pub open spec fn b64_encoded(b: Seq<u8>) -> Seq<u8> {
    let d = b64_data_len(b.len());
    Seq::new(
        if b.len() % 3 == 0 {
            d
        } else {
            (b.len() / 3 + 1) * 4
        },
        |i: int|
            if i < d {
                b64_char(b64_sextet(b, i))
            } else {
                61u8
            },
    )
}

proof fn lemma_b64_char_index(v: int)
    requires
        0 <= v < 64,
    ensures
        b64_index(b64_char(v)) == v,
        b64_char(v) != 61,
{
}

proof fn lemma_without_padding_plain(x: Seq<u8>)
    requires
        forall|i: int| 0 <= i < x.len() ==> x[i] != 61,
    ensures
        without_padding(x) == x,
    decreases x.len(),
{
    if x.len() > 0 {
        lemma_without_padding_plain(x.drop_last());
        assert(x.drop_last().push(x.last()) =~= x);
    }
}

proof fn lemma_without_padding_pads(x: Seq<u8>, k: nat)
    ensures
        without_padding(x + Seq::new(k, |i: int| 61u8)) == without_padding(x),
    decreases k,
{
    if k > 0 {
        let y = x + Seq::new(k, |i: int| 61u8);
        assert(y.drop_last() =~= x + Seq::new((k - 1) as nat, |i: int| 61u8));
        lemma_without_padding_pads(x, (k - 1) as nat);
    } else {
        assert(x + Seq::new(0, |i: int| 61u8) =~= x);
    }
}

proof fn lemma_sextets(v: u32)
    requires
        v < 0x100_0000,
    ensures
        v == (v / 262144) * 262144 + ((v / 4096) % 64) * 4096 + ((v / 64) % 64) * 64 + v % 64,
        v / 262144 < 64,
{
    assert(v == (v / 262144) * 262144 + ((v / 4096) % 64) * 4096 + ((v / 64) % 64) * 64 + v % 64 && v / 262144
        < 64) by (bit_vector)
        requires
            v < 0x100_0000,
    ;
}

proof fn lemma_triple_bytes(b0: u32, b1: u32, b2: u32)
    requires
        b0 < 256,
        b1 < 256,
        b2 < 256,
    ensures
        (b0 * 65536 + b1 * 256 + b2) / 65536 == b0,
        ((b0 * 65536 + b1 * 256 + b2) / 256) % 256 == b1,
        (b0 * 65536 + b1 * 256 + b2) % 256 == b2,
        ((b0 * 65536) / 64) % 64 == 0,
        (b0 * 65536) % 64 == 0,
        (b0 * 65536 + b1 * 256) % 64 == 0,
{
    assert((b0 * 65536 + b1 * 256 + b2) / 65536 == b0 && ((b0 * 65536 + b1 * 256 + b2) / 256) % 256 == b1 && (b0
        * 65536 + b1 * 256 + b2) % 256 == b2 && ((b0 * 65536) / 64) % 64 == 0 && (b0 * 65536) % 64 == 0 && (b0
        * 65536 + b1 * 256) % 64 == 0) by (bit_vector)
        requires
            b0 < 256,
            b1 < 256,
            b2 < 256,
    ;
}

/// Decoding reads back what encoding wrote: the standard Base64 encoding
/// of any bytes, padding and all, is accepted by `decode_base64_simple`'s
/// reading and decodes to those bytes.
pub proof fn decoding_inverts_encoding(b: Seq<u8>)
    ensures
        b64_groups_valid(without_padding(b64_encoded(b))),
        b64_decoded(without_padding(b64_encoded(b))) == b,
{
    let n = b.len();
    let d = b64_data_len(n);
    let e = b64_encoded(b);
    let x = Seq::new(d, |i: int| b64_char(b64_sextet(b, i)));
    let pads = (e.len() - d) as nat;
    assert(e.len() >= d) by {
        assert(n % 3 < 3);
    }
    assert(e =~= x + Seq::new(pads, |i: int| 61u8));
    assert forall|i: int| 0 <= i < d implies 0 <= #[trigger] b64_sextet(b, i) < 64 by {
        let g = i / 4;
        let v = b64_triple(b, g);
        assert(0 <= v < 0x100_0000);
        lemma_sextets(v as u32);
    }
    assert forall|i: int| 0 <= i < x.len() implies x[i] != 61 by {
        lemma_b64_char_index(b64_sextet(b, i));
    }
    lemma_without_padding_pads(x, pads);
    lemma_without_padding_plain(x);
    let c = without_padding(e);
    assert(c == x);
    assert forall|i: int| 0 <= i < b64_read_len(c) implies b64_index(#[trigger] c[i]) >= 0 by {
        lemma_b64_char_index(b64_sextet(b, i));
    }
    // The decoded length is the byte count.
    assert(d / 4 == n / 3 && d % 4 == (if n % 3 == 1 {
        2int
    } else if n % 3 == 2 {
        3int
    } else {
        0int
    }));
    assert(b64_decoded_len(c) == n);
    assert forall|k: int| 0 <= k < n implies #[trigger] b64_decoded(c)[k] == b[k] by {
        let g = k / 3;
        let v = b64_triple(b, g);
        let b0 = byte_or_zero(b, 3 * g);
        let b1 = byte_or_zero(b, 3 * g + 1);
        let b2 = byte_or_zero(b, 3 * g + 2);
        lemma_triple_bytes(b0 as u32, b1 as u32, b2 as u32);
        lemma_sextets(v as u32);
        assert forall|j: int| 0 <= j < 4 implies #[trigger] b64_sextet_at(c, 4 * g + j) == b64_sextet(b, 4 * g + j) by {
            let i = 4 * g + j;
            assert(i / 4 == g && i % 4 == j);
            if i < d {
                lemma_b64_char_index(b64_sextet(b, i));
            } else {
                // Past the characters written, the six-bit value is zero.
                assert(3 * g + 2 >= n);
                if 3 * g + 1 >= n {
                    assert(b1 == 0 && b2 == 0);
                    assert(j >= 2);
                } else {
                    assert(b2 == 0);
                    assert(j == 3);
                }
            }
        }
        assert(b64_group_value(c, g) == v);
        assert(0 <= k % 3 < 3);
        if k % 3 == 0 {
            assert(k == 3 * g);
        } else if k % 3 == 1 {
            assert(k == 3 * g + 1);
        } else {
            assert(k == 3 * g + 2);
        }
    }
    assert(b64_decoded(c) =~= b);
}

/// The UTF-8 bytes of a string.
pub open spec fn utf8_bytes(s: &str) -> Seq<u8> {
    s.spec_bytes()
}

/// Decodes Base64 text leniently: padding characters are dropped anywhere and
/// the remaining characters are read in groups of four; a last group of two
/// or three characters gives one or two bytes, a single last character none.
/// Fails when a character that is read is outside the alphabet.
pub fn decode_base64_simple(input: &str) -> (r: Result<Vec<u8>, String>)
    ensures
        ({
            let c = without_padding(utf8_bytes(input));
            match r {
                Ok(v) => b64_groups_valid(c) && v@ == b64_decoded(c),
                Err(e) => !b64_groups_valid(c) && e@ == "invalid base64 character"@,
            }
        }),
{
    let bytes = input.as_bytes();
    let ghost all = bytes@;
    let mut chars: Vec<u8> = Vec::new();
    let mut j: usize = 0;
    assert(all.take(0) =~= seq![]);
    while j < bytes.len()
        invariant
            j <= all.len(),
            all == bytes@,
            chars@ == without_padding(all.take(j as int)),
        decreases all.len() - j,
    {
        assert(all.take(j + 1).drop_last() =~= all.take(j as int));
        if bytes[j] != 61 {
            chars.push(bytes[j]);
        }
        j += 1;
    }
    assert(all.take(all.len() as int) =~= all);
    let ghost c = chars@;
    let n = chars.len();
    let mut out: Vec<u8> = Vec::new();
    let mut i: usize = 0;
    while i + 3 < n
        invariant
            c == chars@,
            c == without_padding(utf8_bytes(input)),
            n == c.len(),
            i % 4 == 0,
            i <= n,
            forall|t: int| 0 <= t < i ==> b64_index(#[trigger] c[t]) >= 0,
            out@ == b64_decoded(c).take((i / 4 * 3) as int),
        decreases n - i,
    {
        let a = sextet(chars[i]);
        let b = sextet(chars[i + 1]);
        let cc = sextet(chars[i + 2]);
        let d = sextet(chars[i + 3]);
        if a < 0 || b < 0 || cc < 0 || d < 0 {
            proof {
                assert(i / 4 < b64_groups(c));
                assert(i + 3 < b64_groups(c) * 4);
                let t: int = if a < 0 { i as int } else if b < 0 { i + 1 } else if cc < 0 { i + 2 } else { i + 3 };
                assert(b64_index(c[t]) < 0);
            }
            return Err(String::from_str("invalid base64 character"));
        }
        let v: u32 = (a as u32) * 262144 + (b as u32) * 4096 + (cc as u32) * 64 + (d as u32);
        let ghost g = (i / 4) as int;
        proof {
            assert(4 * g == i);
            assert(v == b64_group_value(c, g));
            assert(i / 4 < b64_groups(c));
        }
        out.push((v / 65536) as u8);
        out.push(((v / 256) % 256) as u8);
        out.push((v % 256) as u8);
        proof {
            let k0 = 3 * g;
            assert(k0 / 3 == g && k0 % 3 == 0);
            assert((k0 + 1) / 3 == g && (k0 + 1) % 3 == 1);
            assert((k0 + 2) / 3 == g && (k0 + 2) % 3 == 2);
            assert(((i + 4) / 4 * 3) as int == k0 + 3);
            assert(out@ =~= b64_decoded(c).take(k0 + 3));
        }
        i += 4;
    }
    let rem = n - i;
    proof {
        assert(i / 4 == b64_groups(c));
        assert(rem == c.len() % 4);
    }
    if rem >= 2 {
        let a = sextet(chars[i]);
        let b = sextet(chars[i + 1]);
        let cc: i8 = if rem == 3 { sextet(chars[i + 2]) } else { 0 };
        if a < 0 || b < 0 || cc < 0 {
            proof {
                assert(i + rem == b64_read_len(c));
                let t: int = if a < 0 { i as int } else if b < 0 { i + 1 } else { i + 2 };
                assert(b64_index(c[t]) < 0);
            }
            return Err(String::from_str("invalid base64 character"));
        }
        let v: u32 = (a as u32) * 262144 + (b as u32) * 4096 + (cc as u32) * 64;
        let ghost g = (i / 4) as int;
        proof {
            assert(4 * g == i);
            assert(b64_sextet_at(c, 4 * g + 3) == 0);
            if rem == 2 {
                assert(b64_sextet_at(c, 4 * g + 2) == 0);
            }
            assert(v == b64_group_value(c, g));
        }
        out.push((v / 65536) as u8);
        if rem == 3 {
            out.push(((v / 256) % 256) as u8);
        }
        proof {
            let k0 = 3 * g;
            assert(k0 / 3 == g && k0 % 3 == 0);
            assert((k0 + 1) / 3 == g && (k0 + 1) % 3 == 1);
            assert(out@ =~= b64_decoded(c));
            assert forall|t: int| 0 <= t < b64_read_len(c) implies b64_index(#[trigger] c[t]) >= 0 by {
                if t >= i {
                    assert(t == i || t == i + 1 || t == i + 2);
                }
            }
        }
    } else {
        proof {
            assert(out@ =~= b64_decoded(c));
            assert(b64_read_len(c) == i);
        }
    }
    Ok(out)
}

/// Position of a byte in the Base64 alphabet, or -1.
fn sextet(c: u8) -> (r: i8)
    ensures
        r == b64_index(c),
{
    if 65 <= c && c <= 90 {
        (c - 65) as i8
    } else if 97 <= c && c <= 122 {
        (c - 97 + 26) as i8
    } else if 48 <= c && c <= 57 {
        (c - 48 + 52) as i8
    } else if c == 43 {
        62
    } else if c == 47 {
        63
    } else {
        -1
    }
}

/// Decodes Base64 text: refuses text holding a byte outside the alphabet and
/// `=`, then decodes as `decode_base64_simple`.
pub fn base64_decode(s: &str) -> (r: Result<Vec<u8>, String>)
    ensures
        ({
            let b = utf8_bytes(s);
            let c = without_padding(b);
            if !(forall|i: int| 0 <= i < b.len() ==> b64_allowed(#[trigger] b[i])) {
                r matches Err(e) && e@ == "invalid base64 characters"@
            } else {
                match r {
                    Ok(v) => b64_groups_valid(c) && v@ == b64_decoded(c),
                    Err(e) => !b64_groups_valid(c) && e@ == "invalid base64 character"@,
                }
            }
        }),
{
    let bytes = s.as_bytes();
    let mut i: usize = 0;
    while i < bytes.len()
        invariant
            i <= bytes@.len(),
            bytes@ == utf8_bytes(s),
            forall|t: int| 0 <= t < i ==> b64_allowed(#[trigger] bytes@[t]),
        decreases bytes@.len() - i,
    {
        if !(sextet(bytes[i]) >= 0 || bytes[i] == 61) {
            return Err(String::from_str("invalid base64 characters"));
        }
        i += 1;
    }
    decode_base64_simple(s)
}

/// What `base64_decode` gives for a text: the bytes, or its error message.
pub open spec fn base64_outcome(s: Seq<char>) -> Result<Seq<u8>, Seq<char>> {
    let b = encode_utf8(s);
    let c = without_padding(b);
    if !(forall|i: int| 0 <= i < b.len() ==> b64_allowed(#[trigger] b[i])) {
        Err("invalid base64 characters"@)
    } else if b64_groups_valid(c) {
        Ok(b64_decoded(c))
    } else {
        Err("invalid base64 character"@)
    }
}

// ── Hexadecimal ──────────────────────────────────────────────────────────────

/// Value of a hexadecimal digit (either case), or -1.
pub open spec fn hex_digit_value(c: char) -> int {
    if '0' <= c && c <= '9' {
        c as int - 48
    } else if 'a' <= c && c <= 'f' {
        c as int - 97 + 10
    } else if 'A' <= c && c <= 'F' {
        c as int - 65 + 10
    } else {
        -1
    }
}

/// What `u8::from_str_radix(.., 16)` gives for a two-character text: an
/// optional `+` followed by digits.
pub open spec fn hex_pair(c0: char, c1: char) -> Option<u8> {
    if c0 == '+' {
        if hex_digit_value(c1) >= 0 {
            Some(hex_digit_value(c1) as u8)
        } else {
            None
        }
    } else if hex_digit_value(c0) >= 0 && hex_digit_value(c1) >= 0 {
        Some((hex_digit_value(c0) * 16 + hex_digit_value(c1)) as u8)
    } else {
        None
    }
}

/// Every character is ASCII.
pub open spec fn all_ascii(s: Seq<char>) -> bool {
    vstd::utf8::is_ascii_chars(s)
}

/// Every pair of characters of the text decodes.
pub open spec fn hex_pairs_valid(s: Seq<char>) -> bool {
    forall|k: int| 0 <= k < s.len() / 2 ==> (#[trigger] hex_pair(s[2 * k], s[2 * k + 1])) is Some
}

/// The decoding of a text whose pairs all decode.
pub open spec fn hex_decoded(s: Seq<char>) -> Seq<u8> {
    Seq::new(s.len() / 2, |k: int| hex_pair(s[2 * k], s[2 * k + 1]).unwrap())
}

fn hex_digit(c: char) -> (r: i8)
    ensures
        r == hex_digit_value(c),
{
    if '0' <= c && c <= '9' {
        ((c as u32) - 48) as i8
    } else if 'a' <= c && c <= 'f' {
        ((c as u32) - 97 + 10) as i8
    } else if 'A' <= c && c <= 'F' {
        ((c as u32) - 65 + 10) as i8
    } else {
        -1
    }
}

/// What `hex_decode` gives for a text: the bytes, or its error message.
pub open spec fn hex_outcome(s: Seq<char>) -> Result<Seq<u8>, Seq<char>> {
    if encode_utf8(s).len() % 2 != 0 {
        Err("odd hex length"@)
    } else if all_ascii(s) && hex_pairs_valid(s) {
        Ok(hex_decoded(s))
    } else {
        Err("invalid digit found in string"@)
    }
}

/// Decodes hexadecimal text two characters at a time. Fails with `odd hex
/// length` when the UTF-8 length is odd, and with `invalid digit found in
/// string` when a pair does not decode; text outside ASCII never decodes.
pub fn hex_decode(s: &str) -> (r: Result<Vec<u8>, String>)
    ensures
        match hex_outcome(s@) {
            Ok(b) => r matches Ok(v) && v@ == b,
            Err(m) => r matches Err(e) && e@ == m,
        },
{
    if s.as_bytes().len() % 2 != 0 {
        return Err(String::from_str("odd hex length"));
    }
    if !s.is_ascii() {
        return Err(String::from_str("invalid digit found in string"));
    }
    let n = s.unicode_len();
    let ghost cs = s@;
    let mut out: Vec<u8> = Vec::new();
    let mut k: usize = 0;
    proof {
        vstd::string::is_ascii_spec_bytes(s);
        assert(all_ascii(cs));
        assert(s.spec_bytes().len() == cs.len());
    }
    while k < n / 2
        invariant
            n == cs.len(),
            all_ascii(cs),
            s.len() == n,
            cs == s@,
            n % 2 == 0,
            encode_utf8(cs).len() % 2 == 0,
            k <= n / 2,
            forall|t: int| 0 <= t < k ==> (#[trigger] hex_pair(cs[2 * t], cs[2 * t + 1])) is Some,
            out@ == hex_decoded(cs).take(k as int),
        decreases n / 2 - k,
    {
        let c0 = s.get_char(2 * k);
        let c1 = s.get_char(2 * k + 1);
        let d0 = hex_digit(c0);
        let d1 = hex_digit(c1);
        let byte: u8;
        if c0 == '+' {
            if d1 < 0 {
                return Err(String::from_str("invalid digit found in string"));
            }
            byte = d1 as u8;
        } else {
            if d0 < 0 || d1 < 0 {
                return Err(String::from_str("invalid digit found in string"));
            }
            byte = (d0 as u8) * 16 + (d1 as u8);
        }
        assert(hex_pair(cs[2 * k as int], cs[2 * k + 1]) == Some(byte));
        out.push(byte);
        assert(out@ =~= hex_decoded(cs).take(k + 1));
        k += 1;
    }
    assert(out@ =~= hex_decoded(cs));
    Ok(out)
}

/// Lower-case hexadecimal digit of a value below 16.
pub open spec fn hex_char(d: int) -> char {
    if d < 10 {
        (48 + d) as char
    } else {
        (97 + d - 10) as char
    }
}

/// Two lower-case hexadecimal digits per byte (`{:02x}`).
pub open spec fn hex_text(b: Seq<u8>) -> Seq<char>
    decreases b.len(),
{
    if b.len() == 0 {
        seq![]
    } else {
        hex_text(b.drop_last()) + seq![hex_char(b.last() as int / 16), hex_char(b.last() as int % 16)]
    }
}

pub(crate) fn hex_digit_char(d: u8) -> (c: char)
    requires
        d < 16,
    ensures
        c == hex_char(d as int),
{
    if d < 10 {
        (48 + d) as char
    } else {
        (97 + d - 10) as char
    }
}

/// Encodes bytes as lower-case hexadecimal, two digits per byte.
pub fn hex_encode(bytes: &[u8]) -> (s: String)
    ensures
        s@ == hex_text(bytes@),
{
    let mut s = String::new();
    let mut i: usize = 0;
    assert(bytes@.take(0) =~= seq![]);
    while i < bytes.len()
        invariant
            i <= bytes@.len(),
            s@ == hex_text(bytes@.take(i as int)),
        decreases bytes@.len() - i,
    {
        let b = bytes[i];
        push_char(&mut s, hex_digit_char(b / 16));
        push_char(&mut s, hex_digit_char(b % 16));
        assert(bytes@.take(i + 1).drop_last() =~= bytes@.take(i as int));
        assert(s@ =~= hex_text(bytes@.take(i + 1)));
        i += 1;
    }
    assert(bytes@.take(bytes@.len() as int) =~= bytes@);
    s
}

/// Decoding the hexadecimal encoding of some bytes gives the bytes back.
pub proof fn hex_roundtrip(b: Seq<u8>)
    ensures
        all_ascii(hex_text(b)),
        hex_pairs_valid(hex_text(b)),
        hex_decoded(hex_text(b)) == b,
    decreases b.len(),
{
    let t = hex_text(b);
    if b.len() > 0 {
        let p = b.drop_last();
        hex_roundtrip(p);
        let tp = hex_text(p);
        let x = b.last();
        assert(t == tp + seq![hex_char(x as int / 16), hex_char(x as int % 16)]);
        assert(tp.len() == 2 * p.len()) by {
            lemma_hex_text_len(p);
        }
        assert forall|k: int| 0 <= k < t.len() / 2 implies (#[trigger] hex_pair(t[2 * k], t[2 * k + 1])) is Some && hex_pair(t[2 * k], t[2 * k + 1]).unwrap() == b[k] by {
            if k < p.len() {
                assert(t[2 * k] == tp[2 * k]);
                assert(t[2 * k + 1] == tp[2 * k + 1]);
                assert(hex_decoded(tp)[k] == p[k]);
            } else {
                assert(t[2 * k] == hex_char(x as int / 16));
                assert(t[2 * k + 1] == hex_char(x as int % 16));
            }
        }
        assert(hex_decoded(t) =~= b);
    } else {
        assert(hex_decoded(t) =~= b);
    }
}

pub(crate) proof fn lemma_hex_text_len(b: Seq<u8>)
    ensures
        hex_text(b).len() == 2 * b.len(),
        all_ascii(hex_text(b)),
    decreases b.len(),
{
    if b.len() > 0 {
        lemma_hex_text_len(b.drop_last());
    }
}

} // verus!
