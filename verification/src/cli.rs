//! The terminal interface's own rules: editing the input line, how tall the
//! input box is, masking keys for display, short model names, where popups
//! go, which slash commands there are, percent-encoding of query text, and
//! the checks of a skill package's manifest and module.

use vstd::prelude::*;
use crate::scanner::split_on;
use crate::scanner::split_chars;
use crate::scanner::trim;
use crate::scanner::trim_chars;
use crate::text::has_suffix;
use crate::text::str_eq;
use crate::text::string_from_chars;
use crate::text::chars_of;
use crate::text::concat2;
use crate::text::has_prefix;
use crate::text::is_alphanumeric;
use crate::text::is_alphanumeric_char;
use crate::text::push_char;
use crate::text::str_starts_with;
use vstd::utf8::encode_utf8;
use vstd::utf8::is_char_boundary;

verus! {

/// The line being typed, with the cursor's position counted in characters.
pub struct InputLine {
    text: Vec<char>,
    cursor: usize,
}

impl View for InputLine {
    type V = (Seq<char>, nat);

    closed spec fn view(&self) -> (Seq<char>, nat) {
        (self.text@, self.cursor as nat)
    }
}

impl InputLine {
    /// The cursor stands within the text or just after it.
    pub open spec fn wf(&self) -> bool {
        self@.1 <= self@.0.len()
    }

    /// An empty line.
    pub fn new() -> (l: InputLine)
        ensures
            l.wf(),
            l@ == (Seq::<char>::empty(), 0nat),
    {
        let l = InputLine { text: Vec::new(), cursor: 0 };
        assert(l@.0 =~= Seq::<char>::empty());
        l
    }

    /// The text typed so far.
    pub fn text(&self) -> (s: String)
        ensures
            s@ == self@.0,
    {
        string_from_chars(self.text.as_slice())
    }

    /// Where the cursor stands, in characters.
    pub fn cursor(&self) -> (c: usize)
        ensures
            c == self@.1,
    {
        self.cursor
    }

    /// Types a character at the cursor, which moves past it.
    pub fn insert(&mut self, c: char)
        requires
            old(self).wf(),
        ensures
            final(self).wf(),
            final(self)@ == (old(self)@.0.insert(old(self)@.1 as int, c), old(self)@.1 + 1),
    {
        self.text.insert(self.cursor, c);
        let len = self.text.len();
        assert(self.cursor < len);
        self.cursor = self.cursor + 1;
    }

    /// Deletes the character before the cursor, if there is one.
    pub fn backspace(&mut self)
        requires
            old(self).wf(),
        ensures
            final(self).wf(),
            old(self)@.1 == 0 ==> final(self)@ == old(self)@,
            old(self)@.1 > 0 ==> final(self)@ == (
                old(self)@.0.remove(old(self)@.1 - 1),
                (old(self)@.1 - 1) as nat,
            ),
    {
        if self.cursor > 0 {
            self.text.remove(self.cursor - 1);
            self.cursor = self.cursor - 1;
        }
    }

    /// Moves the cursor one character back, if it can.
    pub fn left(&mut self)
        requires
            old(self).wf(),
        ensures
            final(self).wf(),
            final(self)@.0 == old(self)@.0,
            final(self)@.1 == if old(self)@.1 > 0 { (old(self)@.1 - 1) as nat } else { 0 },
    {
        if self.cursor > 0 {
            self.cursor = self.cursor - 1;
        }
    }

    /// Moves the cursor one character on, if it can.
    pub fn right(&mut self)
        requires
            old(self).wf(),
        ensures
            final(self).wf(),
            final(self)@.0 == old(self)@.0,
            final(self)@.1 == if old(self)@.1 < old(self)@.0.len() { old(self)@.1 + 1 } else { old(self)@.1 },
    {
        if self.cursor < self.text.len() {
            self.cursor = self.cursor + 1;
        }
    }

    /// Moves the cursor to the start of the line.
    pub fn home(&mut self)
        requires
            old(self).wf(),
        ensures
            final(self).wf(),
            final(self)@ == (old(self)@.0, 0nat),
    {
        self.cursor = 0;
    }

    /// Moves the cursor to the end of the line.
    pub fn end(&mut self)
        requires
            old(self).wf(),
        ensures
            final(self).wf(),
            final(self)@ == (old(self)@.0, old(self)@.0.len()),
    {
        self.cursor = self.text.len();
    }

    /// Types pasted text at the cursor, carriage returns left out.
    pub fn paste(&mut self, text: &str)
        requires
            old(self).wf(),
        ensures
            final(self).wf(),
            final(self)@.0 == old(self)@.0.subrange(0, old(self)@.1 as int) + without_cr(text@)
                + old(self)@.0.subrange(old(self)@.1 as int, old(self)@.0.len() as int),
            final(self)@.1 == old(self)@.1 + without_cr(text@).len(),
    {
        let cs = chars_of(text);
        let ghost t0 = self.text@;
        let ghost c0 = self.cursor as int;
        let mut i: usize = 0;
        while i < cs.len()
            invariant
                cs@ == text@,
                i <= cs@.len(),
                self.wf(),
                0 <= c0 <= t0.len(),
                self.text@ == t0.subrange(0, c0) + without_cr(text@.take(i as int)) + t0.subrange(c0, t0.len() as int),
                self.cursor == c0 + without_cr(text@.take(i as int)).len(),
            decreases cs@.len() - i,
        {
            assert(text@.take(i + 1).drop_last() =~= text@.take(i as int));
            if cs[i] != '\r' {
                let ghost before = self.text@;
                let ghost k = self.cursor as int;
                let ghost w = without_cr(text@.take(i as int));
                let ghost a = t0.subrange(0, c0);
                let ghost b = t0.subrange(c0, t0.len() as int);
                self.insert(cs[i]);
                assert(self.text@ == before.insert(k, cs[i as int]));
                assert(before == a + w + b);
                assert(k == a.len() + w.len());
                assert(before.insert(k, cs[i as int]) =~= a + w.push(cs[i as int]) + b);
            }
            i += 1;
        }
        assert(text@.take(cs@.len() as int) =~= text@);
    }

    /// Hands out the text typed and empties the line.
    pub fn take(&mut self) -> (s: String)
        requires
            old(self).wf(),
        ensures
            final(self).wf(),
            s@ == old(self)@.0,
            final(self)@ == (Seq::<char>::empty(), 0nat),
    {
        let s = string_from_chars(self.text.as_slice());
        self.text = Vec::new();
        self.cursor = 0;
        assert(self@.0 =~= Seq::<char>::empty());
        s
    }
}

/// The text with its carriage returns left out.
pub open spec fn without_cr(s: Seq<char>) -> Seq<char>
    decreases s.len(),
{
    if s.len() == 0 {
        s
    } else if s.last() == '\r' {
        without_cr(s.drop_last())
    } else {
        without_cr(s.drop_last()).push(s.last())
    }
}

/// Typing a character and then deleting it leaves the line as it was.
pub proof fn backspace_undoes_insert(text: Seq<char>, cursor: nat, c: char)
    requires
        cursor <= text.len(),
    ensures
        text.insert(cursor as int, c).remove(cursor as int) == text,
{
    assert(text.insert(cursor as int, c).remove(cursor as int) =~= text);
}

/// Moving right and then left returns the cursor where it was, when it was
/// not at the end of the text.
pub proof fn left_undoes_right(len: nat, cursor: nat)
    requires
        cursor < len,
    ensures
        ({
            let r = if cursor < len { cursor + 1 } else { cursor };
            (if r > 0 { (r - 1) as nat } else { 0 }) == cursor
        }),
{
}

/// How many rows a line of `n` characters takes in a box `usable` columns
/// wide: one for an empty line, else `n / usable` rounded up.
pub open spec fn line_rows(n: nat, usable: nat) -> nat {
    if n == 0 {
        1
    } else {
        ((n + usable - 1) / usable as int) as nat
    }
}

/// The rows that the lines take, one after another.
pub open spec fn rows_total(lines: Seq<Seq<char>>, usable: nat) -> nat
    decreases lines.len(),
{
    if lines.len() == 0 {
        0
    } else {
        rows_total(lines.drop_last(), usable) + line_rows(lines.last().len(), usable)
    }
}

/// The height of the input box for a text and a terminal width: 5 rows for
/// an empty text (or a terminal six columns wide or less); else the rows its
/// lines take in the width less six, at least three, plus two for the
/// border, and at most twelve.
pub open spec fn input_rows(input: Seq<char>, width: u16) -> u16 {
    let usable: nat = if width >= 6 { (width - 6) as nat } else { 0 };
    if usable == 0 || input.len() == 0 {
        5
    } else {
        let t = rows_total(split_on(input, '\n'), usable);
        let m = if t < 3 { 3 } else { t };
        if m + 2 < 12 { (m + 2) as u16 } else { 12 }
    }
}

proof fn lemma_rows_prefix(lines: Seq<Seq<char>>, usable: nat, k: int)
    requires
        0 <= k <= lines.len(),
    ensures
        rows_total(lines.take(k), usable) <= rows_total(lines, usable),
    decreases lines.len(),
{
    if k < lines.len() {
        assert(lines.drop_last().take(k) =~= lines.take(k));
        lemma_rows_prefix(lines.drop_last(), usable, k);
    } else {
        assert(lines.take(k) =~= lines);
    }
}

/// The height of the input box.
pub fn input_height(input: &str, width: u16) -> (h: u16)
    ensures
        h == input_rows(input@, width),
{
    let usable: usize = if width >= 6 { (width - 6) as usize } else { 0 };
    if usable == 0 || input.is_empty() {
        return 5;
    }
    let pieces = split_chars(input, '\n');
    let ghost lines = pieces@.map_values(|p: Vec<char>| p@);
    let mut total: usize = 0;
    let mut k: usize = 0;
    while k < pieces.len()
        invariant
            lines == split_on(input@, '\n'),
            lines == pieces@.map_values(|p: Vec<char>| p@),
            usable > 0,
            usable as nat == (if width >= 6 { (width - 6) as nat } else { 0 }),
            k <= pieces@.len(),
            total == rows_total(lines.take(k as int), usable as nat),
            total < 10,
        decreases pieces@.len() - k,
    {
        let n = pieces[k].len();
        assert(lines[k as int].len() == n);
        let rows: usize = if n == 0 {
            1
        } else {
            proof {
                vstd::arithmetic::div_mod::lemma_div_plus_one((n - 1) as int, usable as int);
            }
            (n - 1) / usable + 1
        };
        assert(lines.take(k + 1).drop_last() =~= lines.take(k as int));
        assert(rows as nat == line_rows(n as nat, usable as nat));
        if rows >= 10 - total {
            proof {
                lemma_rows_prefix(lines, usable as nat, k + 1);
            }
            return 12;
        }
        total = total + rows;
        k += 1;
    }
    assert(lines.take(k as int) =~= lines);
    let m: usize = if total < 3 { 3 } else { total };
    (m + 2) as u16
}

/// A model's short name: the part after its last `/`, without the `:free`
/// endings.
pub open spec fn short_model_name(model: Seq<char>) -> Seq<char> {
    strip_trailing(split_on(model, '/').last(), ":free"@)
}

/// `s` with every trailing repetition of `p` removed (`str::trim_end_matches`).
pub open spec fn strip_trailing(s: Seq<char>, p: Seq<char>) -> Seq<char>
    decreases s.len(),
{
    if p.len() > 0 && has_suffix(s, p) {
        strip_trailing(s.subrange(0, s.len() - p.len()), p)
    } else {
        s
    }
}

/// The short name shown for a model.
pub fn model_short_name(model: &str) -> (r: String)
    ensures
        r@ == short_model_name(model@),
{
    let pieces = split_chars(model, '/');
    let ghost lines = pieces@.map_values(|p: Vec<char>| p@);
    let last = &pieces[pieces.len() - 1];
    assert(last@ == lines.last());
    let suffix = chars_of(":free");
    proof {
        reveal_strlit(":free");
    }
    let mut end: usize = last.len();
    assert(last@.subrange(0, end as int) =~= last@);
    while end >= 5 && trailing_match(last.as_slice(), end, suffix.as_slice())
        invariant
            end <= last@.len(),
            suffix@ == ":free"@,
            suffix@.len() == 5,
            strip_trailing(last@.subrange(0, end as int), suffix@) == strip_trailing(last@, suffix@),
        decreases end,
    {
        let ghost s = last@.subrange(0, end as int);
        assert(s.subrange(0, s.len() - 5) =~= last@.subrange(0, end - 5));
        end = end - 5;
    }
    proof {
        let s = last@.subrange(0, end as int);
        if end >= 5 {
            assert(s.subrange(end - 5, end as int) =~= last@.subrange(end - 5, end as int));
        }
    }
    let mut out: Vec<char> = Vec::new();
    let mut i: usize = 0;
    while i < end
        invariant
            end <= last@.len(),
            i <= end,
            out@ == last@.subrange(0, i as int),
        decreases end - i,
    {
        out.push(last[i]);
        i += 1;
    }
    string_from_chars(out.as_slice())
}

/// Whether `s[..end]` ends with `p`.
fn trailing_match(s: &[char], end: usize, p: &[char]) -> (b: bool)
    requires
        end <= s@.len(),
        p@.len() <= end,
    ensures
        b == has_suffix(s@.subrange(0, end as int), p@),
{
    let start = end - p.len();
    let mut k: usize = 0;
    while k < p.len()
        invariant
            start + p@.len() == end,
            end <= s@.len(),
            k <= p@.len(),
            forall|t: int| 0 <= t < k ==> s@[start + t] == p@[t],
        decreases p@.len() - k,
    {
        if s[start + k] != p[k] {
            assert(s@.subrange(0, end as int).subrange(start as int, end as int)[k as int] != p@[k as int]);
            return false;
        }
        k += 1;
    }
    assert(s@.subrange(0, end as int).subrange(start as int, end as int) =~= p@);
    true
}

/// A key as shown on screen: `****` for a key of ten bytes or less, else
/// its first five and last four bytes around `...`.
pub fn mask_key(key: &str) -> (r: String)
    requires
        encode_utf8(key@).len() > 10 ==> is_char_boundary(encode_utf8(key@), 5) && is_char_boundary(
            encode_utf8(key@),
            encode_utf8(key@).len() - 4,
        ),
    ensures
        encode_utf8(key@).len() <= 10 ==> r@ == "****"@,
        encode_utf8(key@).len() > 10 ==> encode_utf8(r@) == encode_utf8(key@).subrange(0, 5) + encode_utf8("..."@)
            + encode_utf8(key@).subrange(encode_utf8(key@).len() - 4, encode_utf8(key@).len() as int),
{
    let n = key.as_bytes().len();
    if n <= 10 {
        return String::from_str("****");
    }
    let (head, _rest) = key.split_at(5);
    let (_front, tail) = key.split_at(n - 4);
    let mut r = String::from_str(head);
    r.append("...");
    r.append(tail);
    proof {
        crate::agent::encode_concat(head@, "..."@);
        crate::agent::encode_concat(head@ + "..."@, tail@);
    }
    r
}

/// Where a popup of at most `w` by `h` goes in an area `width` by `height`:
/// no wider than the area less four, no taller than it less two, centred.
pub fn popup_rect(width: u16, height: u16, w: u16, h: u16) -> (r: (u16, u16, u16, u16))
    ensures
        r.2 == (if width >= 4 { if w < width - 4 { w } else { (width - 4) as u16 } } else { 0 }),
        r.3 == (if height >= 2 { if h < height - 2 { h } else { (height - 2) as u16 } } else { 0 }),
        r.0 == (width - r.2) / 2,
        r.1 == (height - r.3) / 2,
{
    let aw: u16 = if width >= 4 { width - 4 } else { 0 };
    let ah: u16 = if height >= 2 { height - 2 } else { 0 };
    let pw: u16 = if w < aw { w } else { aw };
    let ph: u16 = if h < ah { h } else { ah };
    ((width - pw) / 2, (height - ph) / 2, pw, ph)
}

/// The slash commands of the terminal interface.
#[derive(Clone, Copy, Debug, PartialEq, Eq, Structural)]
pub enum SlashCommand {
    Help,
    Clear,
    Model,
    Exit,
    Connect,
}

/// The slash command a typed line names, once trimmed, if any.
pub open spec fn slash_meaning(line: Seq<char>) -> Option<SlashCommand> {
    let t = trim(line);
    if t == "/help"@ || t == "/h"@ {
        Some(SlashCommand::Help)
    } else if t == "/clear"@ || t == "/new"@ {
        Some(SlashCommand::Clear)
    } else if t == "/model"@ {
        Some(SlashCommand::Model)
    } else if t == "/exit"@ || t == "/quit"@ || t == "/q"@ {
        Some(SlashCommand::Exit)
    } else if t == "/connect"@ || t == "/keys"@ || t == "/api"@ {
        Some(SlashCommand::Connect)
    } else {
        None
    }
}

/// Reads a typed line as a slash command.
pub fn slash_command(line: &str) -> (r: Option<SlashCommand>)
    ensures
        r == slash_meaning(line@),
{
    let cs = chars_of(line);
    let tv = trim_chars(cs.as_slice());
    let t = string_from_chars(tv.as_slice());
    let s = t.as_str();
    if str_eq(s, "/help") || str_eq(s, "/h") {
        Some(SlashCommand::Help)
    } else if str_eq(s, "/clear") || str_eq(s, "/new") {
        Some(SlashCommand::Clear)
    } else if str_eq(s, "/model") {
        Some(SlashCommand::Model)
    } else if str_eq(s, "/exit") || str_eq(s, "/quit") || str_eq(s, "/q") {
        Some(SlashCommand::Exit)
    } else if str_eq(s, "/connect") || str_eq(s, "/keys") || str_eq(s, "/api") {
        Some(SlashCommand::Connect)
    } else {
        None
    }
}

/// The upper-case hexadecimal digit of `d` (below 16).
pub open spec fn upper_hex_digit(d: nat) -> char {
    if d < 10 {
        (48 + d) as char
    } else {
        (55 + d) as char
    }
}

/// How one character is written in a query: letters, digits and `-_.~` as
/// they are; any other as `%` and two upper-case hexadecimal digits of its
/// code's lowest byte.
pub open spec fn url_char(c: char) -> Seq<char> {
    if is_alphanumeric_char(c) || c == '-' || c == '_' || c == '.' || c == '~' {
        seq![c]
    } else {
        let b = (c as u32 % 256) as nat;
        seq!['%', upper_hex_digit(b / 16), upper_hex_digit(b % 16)]
    }
}

/// A text percent-encoded for a query.
pub open spec fn url_encoded(s: Seq<char>) -> Seq<char>
    decreases s.len(),
{
    if s.len() == 0 {
        Seq::empty()
    } else {
        url_encoded(s.drop_last()) + url_char(s.last())
    }
}

fn hex_digit_char(d: u32) -> (c: char)
    requires
        d < 16,
    ensures
        c == upper_hex_digit(d as nat),
{
    if d < 10 {
        ((48 + d) as u8) as char
    } else {
        ((55 + d) as u8) as char
    }
}

/// Percent-encodes a text for a query.
pub fn urlencoding(s: &str) -> (r: String)
    ensures
        r@ == url_encoded(s@),
{
    let cs = chars_of(s);
    let mut r = String::new();
    let mut i: usize = 0;
    while i < cs.len()
        invariant
            cs@ == s@,
            i <= cs@.len(),
            r@ == url_encoded(s@.take(i as int)),
        decreases cs@.len() - i,
    {
        let c = cs[i];
        assert(s@.take(i + 1).drop_last() =~= s@.take(i as int));
        if is_alphanumeric(c) || c == '-' || c == '_' || c == '.' || c == '~' {
            push_char(&mut r, c);
        } else {
            let b: u32 = (c as u32) % 256;
            push_char(&mut r, '%');
            push_char(&mut r, hex_digit_char(b / 16));
            push_char(&mut r, hex_digit_char(b % 16));
        }
        i += 1;
    }
    assert(s@.take(cs@.len() as int) =~= s@);
    r
}

/// The mark shown before a permission: `[net]` for network ones, `[fs]` for
/// file-system ones, `[key]` for the rest.
pub fn permission_icon(permission: &str) -> (r: &'static str)
    ensures
        has_prefix(permission@, "net:"@) || has_prefix(permission@, "http:"@) ==> r@ == "[net]"@,
        !(has_prefix(permission@, "net:"@) || has_prefix(permission@, "http:"@)) && has_prefix(permission@, "fs:"@)
            ==> r@ == "[fs]"@,
        !(has_prefix(permission@, "net:"@) || has_prefix(permission@, "http:"@) || has_prefix(permission@, "fs:"@))
            ==> r@ == "[key]"@,
{
    if str_starts_with(permission, "net:") || str_starts_with(permission, "http:") {
        "[net]"
    } else if str_starts_with(permission, "fs:") {
        "[fs]"
    } else {
        "[key]"
    }
}

/// What a package's manifest holds, as far as the checks read it.
#[derive(Debug)]
pub struct ManifestFields {
    pub name: Option<String>,
    pub version: Option<String>,
    pub description: Option<String>,
    pub author: Option<String>,
    pub has_permissions: bool,
}

/// A package's manifest: missing, not JSON (with the parser's message), or read.
#[derive(Debug)]
pub enum ManifestRead {
    Missing,
    Invalid(String),
    Fields(ManifestFields),
}

/// A package's `skill.wasm`: its first bytes (eight, when the module is that
/// long) and its size.
#[derive(Debug)]
pub struct WasmEntry {
    pub header: Vec<u8>,
    pub size: u64,
}

/// A required manifest field is missing when it is absent or empty.
pub open spec fn field_missing(f: Option<String>) -> bool {
    match f {
        Some(s) => s@.len() == 0,
        None => true,
    }
}

/// The errors found in a package, in the order they are reported.
pub open spec fn package_errors(manifest: ManifestRead, wasm: Option<WasmEntry>) -> Seq<Seq<char>> {
    let m: Seq<Seq<char>> = match manifest {
        ManifestRead::Missing => seq!["Missing package manifest"@],
        ManifestRead::Invalid(e) => seq!["package manifest is not valid JSON: "@ + e@],
        ManifestRead::Fields(f) => {
            let a: Seq<Seq<char>> = if field_missing(f.name) { seq!["package manifest missing required field: name"@] } else { seq![] };
            let b: Seq<Seq<char>> = if field_missing(f.version) { seq!["package manifest missing required field: version"@] } else { seq![] };
            let c: Seq<Seq<char>> = if field_missing(f.description) { seq!["package manifest missing required field: description"@] } else { seq![] };
            let d: Seq<Seq<char>> = if field_missing(f.author) { seq!["package manifest missing required field: author"@] } else { seq![] };
            a + b + c + d
        },
    };
    let w: Seq<Seq<char>> = match wasm {
        None => seq!["Missing skill.wasm"@],
        Some(e) => {
            let bad_magic: Seq<Seq<char>> = if e.header@.len() == 8 && e.header@.subrange(0, 4) != seq![0x00u8, 0x61u8, 0x73u8, 0x6Du8] {
                seq!["skill.wasm has invalid WASM magic bytes"@]
            } else {
                seq![]
            };
            let small: Seq<Seq<char>> = if e.size < 8 { seq!["skill.wasm is too small to be a valid WASM module"@] } else { seq![] };
            bad_magic + small
        },
    };
    m + w
}

/// The warnings found in a package.
pub open spec fn package_warnings(manifest: ManifestRead) -> Seq<Seq<char>> {
    match manifest {
        ManifestRead::Fields(f) => if f.has_permissions {
            seq![]
        } else {
            seq!["package manifest: 'permissions' field missing (defaulting to empty)"@]
        },
        _ => seq![],
    }
}

fn push_text(v: &mut Vec<String>, s: &str)
    ensures
        final(v)@.map_values(|x: String| x@) == old(v)@.map_values(|x: String| x@).push(s@),
{
    let ghost before = v@;
    v.push(String::from_str(s));
    assert(v@.map_values(|x: String| x@) =~= before.map_values(|x: String| x@).push(s@));
}

fn opt_missing(f: &Option<String>) -> (b: bool)
    ensures
        b == field_missing(*f),
{
    match f {
        Some(s) => s.as_str().is_empty(),
        None => true,
    }
}

/// Checks a skill package: the errors and the warnings, in the order they
/// are reported.
pub fn package_findings(manifest: &ManifestRead, wasm: &Option<WasmEntry>) -> (r: (Vec<String>, Vec<String>))
    ensures
        r.0@.map_values(|x: String| x@) == package_errors(*manifest, *wasm),
        r.1@.map_values(|x: String| x@) == package_warnings(*manifest),
{
    let mut errors: Vec<String> = Vec::new();
    let mut warnings: Vec<String> = Vec::new();
    match manifest {
        ManifestRead::Missing => push_text(&mut errors, "Missing package manifest"),
        ManifestRead::Invalid(e) => {
            let m = concat2("package manifest is not valid JSON: ", e.as_str());
            push_text(&mut errors, m.as_str());
        },
        ManifestRead::Fields(f) => {
            if opt_missing(&f.name) {
                push_text(&mut errors, "package manifest missing required field: name");
            }
            if opt_missing(&f.version) {
                push_text(&mut errors, "package manifest missing required field: version");
            }
            if opt_missing(&f.description) {
                push_text(&mut errors, "package manifest missing required field: description");
            }
            if opt_missing(&f.author) {
                push_text(&mut errors, "package manifest missing required field: author");
            }
            if !f.has_permissions {
                push_text(&mut warnings, "package manifest: 'permissions' field missing (defaulting to empty)");
            }
        },
    }
    let ghost after_manifest = errors@.map_values(|x: String| x@);
    match wasm {
        None => push_text(&mut errors, "Missing skill.wasm"),
        Some(e) => {
            if e.header.len() == 8 {
                let magic_ok = e.header[0] == 0x00 && e.header[1] == 0x61 && e.header[2] == 0x73 && e.header[3] == 0x6D;
                assert(magic_ok == (e.header@.subrange(0, 4) =~= seq![0x00u8, 0x61u8, 0x73u8, 0x6Du8]));
                if !magic_ok {
                    push_text(&mut errors, "skill.wasm has invalid WASM magic bytes");
                }
            }
            if e.size < 8 {
                push_text(&mut errors, "skill.wasm is too small to be a valid WASM module");
            }
        },
    }
    let ghost es = errors@.map_values(|x: String| x@);
    assert(es =~= package_errors(*manifest, *wasm));
    assert(warnings@.map_values(|x: String| x@) =~= package_warnings(*manifest));
    (errors, warnings)
}


/// The configuration entry that holds a provider's key, found by the
/// provider's environment variable.
pub open spec fn provider_config_key(key_env: Seq<char>) -> Option<Seq<char>> {
    if key_env == "OPENROUTER_API_KEY"@ {
        Some("openrouter_key"@)
    } else if key_env == "GROQ_API_KEY"@ {
        Some("groq_key"@)
    } else if key_env == "CEREBRAS_API_KEY"@ {
        Some("cerebras_key"@)
    } else {
        None
    }
}

/// Names the configuration entry of a provider's key.
pub fn config_key_for(key_env: &str) -> (r: Option<&'static str>)
    ensures
        match r {
            Some(k) => provider_config_key(key_env@) == Some(k@),
            None => provider_config_key(key_env@).is_none(),
        },
{
    if str_eq(key_env, "OPENROUTER_API_KEY") {
        Some("openrouter_key")
    } else if str_eq(key_env, "GROQ_API_KEY") {
        Some("groq_key")
    } else if str_eq(key_env, "CEREBRAS_API_KEY") {
        Some("cerebras_key")
    } else {
        None
    }
}

/// The text value of the first configuration entry of a name.
pub open spec fn config_text(cfg: Seq<(Seq<char>, Seq<char>)>, name: Seq<char>) -> Option<Seq<char>>
    decreases cfg.len(),
{
    if cfg.len() == 0 {
        None
    } else if cfg[0].0 == name {
        Some(cfg[0].1)
    } else {
        config_text(cfg.drop_first(), name)
    }
}

/// A configured value that is not empty.
pub open spec fn non_empty(v: Option<Seq<char>>) -> Option<Seq<char>> {
    match v {
        Some(t) => if t.len() > 0 {
            Some(t)
        } else {
            None
        },
        None => None,
    }
}

/// The key to use for a provider: its own environment variable, else the
/// general one, else for a known provider its configured key, else the
/// general configured key; configured keys count only when not empty.
pub open spec fn provider_key(
    key_env: Seq<char>,
    env_own: Option<Seq<char>>,
    env_general: Option<Seq<char>>,
    cfg: Seq<(Seq<char>, Seq<char>)>,
) -> Option<Seq<char>> {
    if env_own.is_some() {
        env_own
    } else if env_general.is_some() {
        env_general
    } else {
        match provider_config_key(key_env) {
            None => None,
            Some(ck) => if non_empty(config_text(cfg, ck)).is_some() {
                non_empty(config_text(cfg, ck))
            } else {
                non_empty(config_text(cfg, "api_key"@))
            },
        }
    }
}

/// The texts of configuration entries.
pub open spec fn entry_views(cfg: Seq<(String, String)>) -> Seq<(Seq<char>, Seq<char>)> {
    cfg.map_values(|e: (String, String)| (e.0@, e.1@))
}

fn find_config_text(cfg: &[(String, String)], name: &str) -> (r: Option<String>)
    ensures
        match r {
            Some(t) => config_text(entry_views(cfg@), name@) == Some(t@),
            None => config_text(entry_views(cfg@), name@).is_none(),
        },
{
    let ghost all = entry_views(cfg@);
    let mut i: usize = 0;
    assert(all.skip(0) =~= all);
    while i < cfg.len()
        invariant
            i <= cfg@.len(),
            all == entry_views(cfg@),
            config_text(all.skip(i as int), name@) == config_text(all, name@),
        decreases cfg@.len() - i,
    {
        let ghost rest = all.skip(i as int);
        assert(rest[0] == (cfg@[i as int].0@, cfg@[i as int].1@));
        if str_eq(cfg[i].0.as_str(), name) {
            return Some(cfg[i].1.clone());
        }
        assert(rest.drop_first() =~= all.skip(i + 1));
        i = i + 1;
    }
    None
}

fn non_empty_text(v: Option<String>) -> (r: Option<String>)
    ensures
        match r {
            Some(t) => non_empty(match v {
                Some(x) => Some(x@),
                None => None,
            }) == Some(t@),
            None => non_empty(match v {
                Some(x) => Some(x@),
                None => None,
            }).is_none(),
        },
{
    match v {
        Some(t) => if t.unicode_len() > 0 {
            Some(t)
        } else {
            None
        },
        None => None,
    }
}

/// Chooses a provider's key from what the environment and the
/// configuration's text entries hold.
pub fn resolve_provider_key(
    key_env: &str,
    env_own: Option<String>,
    env_general: Option<String>,
    cfg: &[(String, String)],
) -> (r: Option<String>)
    ensures
        match r {
            Some(k) => provider_key(
                key_env@,
                match env_own {
                    Some(x) => Some(x@),
                    None => None,
                },
                match env_general {
                    Some(x) => Some(x@),
                    None => None,
                },
                entry_views(cfg@),
            ) == Some(k@),
            None => provider_key(
                key_env@,
                match env_own {
                    Some(x) => Some(x@),
                    None => None,
                },
                match env_general {
                    Some(x) => Some(x@),
                    None => None,
                },
                entry_views(cfg@),
            ).is_none(),
        },
{
    if env_own.is_some() {
        return env_own;
    }
    if env_general.is_some() {
        return env_general;
    }
    match config_key_for(key_env) {
        None => None,
        Some(ck) => {
            let own = non_empty_text(find_config_text(cfg, ck));
            if own.is_some() {
                own
            } else {
                proof {
                    reveal_strlit("api_key");
                }
                non_empty_text(find_config_text(cfg, "api_key"))
            }
        },
    }
}


/// Masks a saved login token for display: tokens of more than eight bytes
/// show their first and last four bytes around `...`; shorter ones show
/// `****`.
pub fn mask_token(token: &str) -> (r: String)
    requires
        encode_utf8(token@).len() > 8 ==> is_char_boundary(encode_utf8(token@), 4) && is_char_boundary(
            encode_utf8(token@),
            encode_utf8(token@).len() - 4,
        ),
    ensures
        encode_utf8(token@).len() <= 8 ==> r@ == "****"@,
        encode_utf8(token@).len() > 8 ==> encode_utf8(r@) == encode_utf8(token@).subrange(0, 4) + encode_utf8(
            "..."@,
        ) + encode_utf8(token@).subrange(encode_utf8(token@).len() - 4, encode_utf8(token@).len() as int),
{
    let n = token.as_bytes().len();
    if n <= 8 {
        return String::from_str("****");
    }
    let (head, _rest) = token.split_at(4);
    let (_front, tail) = token.split_at(n - 4);
    let mut r = String::from_str(head);
    r.append("...");
    r.append(tail);
    proof {
        crate::agent::encode_concat(head@, "..."@);
        crate::agent::encode_concat(head@ + "..."@, tail@);
    }
    r
}


/// The languages a new skill can be written in.
#[derive(Clone, Copy, Debug, PartialEq, Eq, Structural)]
pub enum SkillLanguage {
    Rust,
    TypeScript,
    Python,
    Unsupported,
}

/// The language a name given to `skill init` stands for.
pub open spec fn language_named(name: Seq<char>) -> SkillLanguage {
    if name == "rust"@ {
        SkillLanguage::Rust
    } else if name == "typescript"@ || name == "ts"@ {
        SkillLanguage::TypeScript
    } else if name == "python"@ || name == "py"@ {
        SkillLanguage::Python
    } else {
        SkillLanguage::Unsupported
    }
}

/// Reads the language given to `skill init`.
pub fn skill_language(name: &str) -> (l: SkillLanguage)
    ensures
        l == language_named(name@),
{
    if str_eq(name, "rust") {
        SkillLanguage::Rust
    } else if str_eq(name, "typescript") || str_eq(name, "ts") {
        SkillLanguage::TypeScript
    } else if str_eq(name, "python") || str_eq(name, "py") {
        SkillLanguage::Python
    } else {
        SkillLanguage::Unsupported
    }
}

/// A text with each `-` replaced by `_`.
pub open spec fn underscored(s: Seq<char>) -> Seq<char> {
    s.map_values(|c: char| if c == '-' { '_' } else { c })
}

/// The module file a skill's build leaves: its name (`skill` when the
/// manifest gives none) with `-` made `_`, and `.wasm`.
pub fn wasm_file_name(name: Option<&str>) -> (r: String)
    ensures
        r@ == underscored(
            match name {
                Some(n) => n@,
                None => "skill"@,
            },
        ) + ".wasm"@,
{
    let n = match name {
        Some(n) => n,
        None => "skill",
    };
    let cs = chars_of(n);
    let mut out: Vec<char> = Vec::new();
    let mut i: usize = 0;
    while i < cs.len()
        invariant
            i <= cs@.len(),
            cs@ == n@,
            out@ == underscored(cs@.take(i as int)),
        decreases cs@.len() - i,
    {
        let c = cs[i];
        out.push(if c == '-' { '_' } else { c });
        i = i + 1;
        assert(out@ =~= underscored(cs@.take(i as int)));
    }
    assert(cs@.take(cs@.len() as int) =~= cs@);
    let mut r = string_from_chars(out.as_slice());
    r.append(".wasm");
    r
}

/// The package file `skill pack` writes by default: name and version from
/// the manifest (`skill` and `0.1.0` when it gives none), joined by `-`,
/// with `.ozskill`.
pub fn package_file_name(name: Option<&str>, version: Option<&str>) -> (r: String)
    ensures
        r@ == (match name {
            Some(n) => n@,
            None => "skill"@,
        }) + "-"@ + (match version {
            Some(v) => v@,
            None => "0.1.0"@,
        }) + ".ozskill"@,
{
    let mut r = String::from_str(
        match name {
            Some(n) => n,
            None => "skill",
        },
    );
    r.append("-");
    r.append(
        match version {
            Some(v) => v,
            None => "0.1.0",
        },
    );
    r.append(".ozskill");
    r
}

/// The marketplace's address.
pub open spec fn marketplace_api() -> Seq<char> {
    "https://api.openzax.dev/v1"@
}

/// The search address: the encoded query, the category when one is given,
/// and the limit.
pub open spec fn search_address(query: Seq<char>, category: Option<Seq<char>>, limit: nat) -> Seq<char> {
    marketplace_api() + "/search?q="@ + url_encoded(query) + (match category {
        Some(c) => "&category="@ + c,
        None => seq![],
    }) + "&limit="@ + crate::text::decimal(limit)
}

/// Writes the search address.
pub fn search_url(query: &str, category: Option<&str>, limit: u32) -> (r: String)
    ensures
        r@ == search_address(
            query@,
            match category {
                Some(c) => Some(c@),
                None => None,
            },
            limit as nat,
        ),
{
    let mut r = String::from_str("https://api.openzax.dev/v1/search?q=");
    let q = urlencoding(query);
    r.append(q.as_str());
    let ghost before = r@;
    match category {
        Some(c) => {
            r.append("&category=");
            r.append(c);
        },
        None => {
            assert(r@ =~= before + seq![]);
        },
    }
    r.append("&limit=");
    let l = crate::text::u64_to_decimal(limit as u64);
    r.append(l.as_str());
    proof {
        reveal_strlit("https://api.openzax.dev/v1/search?q=");
        reveal_strlit("https://api.openzax.dev/v1");
        reveal_strlit("/search?q=");
        assert("https://api.openzax.dev/v1/search?q="@ =~= marketplace_api() + "/search?q="@);
    }
    r
}

/// The address of a skill's description in the marketplace: the encoded
/// name and the version asked for, else `latest`.
pub fn skill_meta_url(name: &str, version: Option<&str>) -> (r: String)
    ensures
        r@ == marketplace_api() + "/skills/"@ + url_encoded(name@) + "/"@ + (match version {
            Some(v) => v@,
            None => "latest"@,
        }),
{
    let mut r = String::from_str("https://api.openzax.dev/v1/skills/");
    let n = urlencoding(name);
    r.append(n.as_str());
    r.append("/");
    r.append(
        match version {
            Some(v) => v,
            None => "latest",
        },
    );
    proof {
        reveal_strlit("https://api.openzax.dev/v1/skills/");
        reveal_strlit("https://api.openzax.dev/v1");
        reveal_strlit("/skills/");
        assert("https://api.openzax.dev/v1/skills/"@ =~= marketplace_api() + "/skills/"@);
    }
    r
}


/// The version a module's header gives: the little-endian number in bytes
/// four to seven after the `\0asm` magic; none without the magic.
pub fn wasm_version_of(header: &[u8]) -> (r: Option<u32>)
    requires
        header@.len() >= 4 && header@[0] == 0 && header@[1] == 0x61 && header@[2] == 0x73 && header@[3] == 0x6d
            ==> header@.len() >= 8,
    ensures
        match r {
            Some(v) => header@.len() >= 8 && header@[0] == 0 && header@[1] == 0x61 && header@[2] == 0x73 && header@[3]
                == 0x6d && v == header@[4] + 256 * header@[5] + 65536 * header@[6] + 16777216 * header@[7],
            None => !(header@.len() >= 4 && header@[0] == 0 && header@[1] == 0x61 && header@[2] == 0x73 && header@[3]
                == 0x6d),
        },
{
    if header.len() >= 4 && header[0] == 0 && header[1] == 0x61 && header[2] == 0x73 && header[3] == 0x6d {
        let v: u32 = header[4] as u32 + 256 * (header[5] as u32) + 65536 * (header[6] as u32) + 16777216 * (
        header[7] as u32);
        Some(v)
    } else {
        None
    }
}


/// A free model the terminal interface offers: its id, the name shown, its
/// context size, its provider, the endpoint and key variable it uses, its
/// category and what it is good at.
pub struct FreeModel {
    pub id: &'static str,
    pub display: &'static str,
    pub ctx: &'static str,
    pub provider: &'static str,
    pub api_url: &'static str,
    pub key_env: &'static str,
    pub category: &'static str,
    pub strength: &'static str,
}

/// The model a session starts with when none is chosen.
pub const DEFAULT_MODEL: &'static str = "deepseek/deepseek-r1-0528:free";

/// The key a session starts with: the one given on the command line, else
/// `OPENZAX_API_KEY`, else `OPENROUTER_API_KEY`, else the configured key
/// when it is not empty.
pub open spec fn starting_key(
    arg: Option<Seq<char>>,
    env_openzax: Option<Seq<char>>,
    env_openrouter: Option<Seq<char>>,
    configured: Option<Seq<char>>,
) -> Option<Seq<char>> {
    if arg.is_some() {
        arg
    } else if env_openzax.is_some() {
        env_openzax
    } else if env_openrouter.is_some() {
        env_openrouter
    } else {
        non_empty(configured)
    }
}

/// The texts of optional strings.
pub open spec fn opt_view(o: Option<String>) -> Option<Seq<char>> {
    match o {
        Some(s) => Some(s@),
        None => None,
    }
}

/// Chooses the key a session starts with.
pub fn initial_key(
    arg: Option<String>,
    env_openzax: Option<String>,
    env_openrouter: Option<String>,
    configured: Option<String>,
) -> (r: Option<String>)
    ensures
        opt_view(r) == starting_key(opt_view(arg), opt_view(env_openzax), opt_view(env_openrouter), opt_view(configured)),
{
    if arg.is_some() {
        arg
    } else if env_openzax.is_some() {
        env_openzax
    } else if env_openrouter.is_some() {
        env_openrouter
    } else {
        non_empty_text(configured)
    }
}

/// The model a session starts with: the one asked for, except that asking
/// for the default model takes the saved model when one is saved.
pub fn initial_model(asked: &str, saved: Option<&str>) -> (r: String)
    ensures
        r@ == if asked@ == DEFAULT_MODEL@ {
            match saved {
                Some(m) => if m@.len() > 0 {
                    m@
                } else {
                    asked@
                },
                None => asked@,
            }
        } else {
            asked@
        },
{
    if str_eq(asked, DEFAULT_MODEL) {
        match saved {
            Some(m) => {
                if m.unicode_len() > 0 {
                    return String::from_str(m);
                }
            },
            None => {},
        }
    }
    String::from_str(asked)
}

/// The position of the first of the ids that equals `id`.
pub fn position_of_id(ids: &[&str], id: &str) -> (r: Option<usize>)
    ensures
        match r {
            Some(i) => i < ids@.len() && ids@[i as int]@ == id@ && forall|j: int| 0 <= j < i ==> ids@[j]@ != id@,
            None => forall|j: int| 0 <= j < ids@.len() ==> ids@[j]@ != id@,
        },
{
    let mut i: usize = 0;
    while i < ids.len()
        invariant
            i <= ids@.len(),
            forall|j: int| 0 <= j < i ==> ids@[j]@ != id@,
        decreases ids@.len() - i,
    {
        if str_eq(ids[i], id) {
            return Some(i);
        }
        i = i + 1;
    }
    None
}


/// Whether saving a provider's key also saves it as the general key: so it
/// is for OpenRouter, whose key serves as the fallback.
pub fn also_general_key(config_key: &str) -> (b: bool)
    ensures
        b == (config_key@ == "openrouter_key"@),
{
    str_eq(config_key, "openrouter_key")
}

} // verus!
