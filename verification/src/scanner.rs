//! Tier-1 static analysis of WASM skill packages: module header and section
//! walk, import extraction, permission cross-check, known-bad byte patterns,
//! and the audit of declared dependencies against known-vulnerable versions.

use vstd::prelude::*;
use vstd::string::*;
use crate::text::{
    decimal, digit_char, u64_to_decimal, concat2, concat3, contains_seq, has_prefix, occurs_at,
    str_contains, str_starts_with, str_eq, find_bytes, push_char,
};
use vstd::utf8::{valid_utf8, decode_utf8};
use crate::text::{lowercase, to_lowercase, is_white_space, is_whitespace, chars_of, string_from_chars};

verus! {

// ── Violations ───────────────────────────────────────────────────────────────

#[derive(Clone, Copy, Debug, PartialEq, Eq, Structural)]
pub enum ViolationSeverity {
    Critical,
    High,
    Medium,
    Low,
}

/// One finding of the scanner.
#[derive(Debug)]
pub struct ScanViolation {
    pub severity: ViolationSeverity,
    pub description: String,
    pub line_hint: Option<usize>,
}

/// What a violation says, as plain values.
pub struct ViolationView {
    pub severity: ViolationSeverity,
    pub description: Seq<char>,
    pub line_hint: Option<usize>,
}

impl View for ScanViolation {
    type V = ViolationView;

    open spec fn view(&self) -> ViolationView {
        ViolationView {
            severity: self.severity,
            description: self.description@,
            line_hint: self.line_hint,
        }
    }
}

/// A violation with the given severity and description and no position.
pub open spec fn violation(severity: ViolationSeverity, description: Seq<char>) -> ViolationView {
    ViolationView { severity, description, line_hint: None }
}

/// The views of a list of violations.
pub open spec fn views(v: Seq<ScanViolation>) -> Seq<ViolationView> {
    v.map_values(|x: ScanViolation| x@)
}

impl ScanViolation {
    /// A critical violation.
    pub fn critical(description: String) -> (v: ScanViolation)
        ensures
            v@ == violation(ViolationSeverity::Critical, description@),
    {
        ScanViolation { severity: ViolationSeverity::Critical, description, line_hint: None }
    }

    /// A high-severity violation.
    pub fn high(description: String) -> (v: ScanViolation)
        ensures
            v@ == violation(ViolationSeverity::High, description@),
    {
        ScanViolation { severity: ViolationSeverity::High, description, line_hint: None }
    }

    /// A medium-severity violation.
    pub fn medium(description: String) -> (v: ScanViolation)
        ensures
            v@ == violation(ViolationSeverity::Medium, description@),
    {
        ScanViolation { severity: ViolationSeverity::Medium, description, line_hint: None }
    }

    /// The same violation, pointing at position `hint`.
    pub fn with_hint(self, hint: usize) -> (v: ScanViolation)
        ensures
            v@ == (ViolationView { line_hint: Some(hint), ..self@ }),
    {
        ScanViolation { line_hint: Some(hint), ..self }
    }
}

/// Risk weight of one violation, in tenths of a point (critical 10, high 5,
/// medium 2, low 0.5 points).
pub open spec fn severity_weight(s: ViolationSeverity) -> nat {
    match s {
        ViolationSeverity::Critical => 100,
        ViolationSeverity::High => 50,
        ViolationSeverity::Medium => 20,
        ViolationSeverity::Low => 5,
    }
}

/// Sum of the risk weights of a list of violations, in tenths of a point.
pub open spec fn risk_sum(v: Seq<ViolationView>) -> nat
    decreases v.len(),
{
    if v.len() == 0 {
        0
    } else {
        risk_sum(v.drop_last()) + severity_weight(v.last().severity)
    }
}

/// The risk score of a list of violations in tenths of a point: the sum of
/// the weights, capped at 100 points.
pub open spec fn risk_score(v: Seq<ViolationView>) -> nat {
    if risk_sum(v) < 1000 {
        risk_sum(v)
    } else {
        1000
    }
}

/// Some violation in the list is critical.
pub open spec fn has_critical(v: Seq<ViolationView>) -> bool {
    exists|i: int| 0 <= i < v.len() && v[i].severity == ViolationSeverity::Critical
}

/// Outcome of a scan. `risk_score_tenths` is the risk score in tenths of a
/// point (0 to 1000, that is 0.0 to 100.0 points).
#[derive(Debug)]
pub struct ScanResult {
    pub passed: bool,
    pub violations: Vec<ScanViolation>,
    pub risk_score_tenths: u32,
    pub wasm_size_bytes: usize,
    pub section_count: usize,
}

/// The risk score of a list of violations, in tenths of a point.
pub fn compute_risk_score(violations: &[ScanViolation]) -> (r: u32)
    ensures
        r == risk_score(views(violations@)),
{
    let ghost vs = views(violations@);
    let mut acc: u32 = 0;
    let mut i: usize = 0;
    while i < violations.len()
        invariant
            i <= violations@.len(),
            vs == views(violations@),
            acc == risk_score(vs.take(i as int)),
        decreases violations@.len() - i,
    {
        let w: u32 = match violations[i].severity {
            ViolationSeverity::Critical => 100,
            ViolationSeverity::High => 50,
            ViolationSeverity::Medium => 20,
            ViolationSeverity::Low => 5,
        };
        proof {
            assert(vs.take(i + 1).drop_last() =~= vs.take(i as int));
            assert(vs.take(i + 1).last() == violations@[i as int]@);
        }
        acc = if acc + w < 1000 {
            acc + w
        } else {
            1000
        };
        i += 1;
    }
    assert(vs.take(violations@.len() as int) =~= vs);
    acc
}

/// Whether some violation in the list is critical.
pub fn any_critical(violations: &[ScanViolation]) -> (b: bool)
    ensures
        b == has_critical(views(violations@)),
{
    let mut i: usize = 0;
    while i < violations.len()
        invariant
            i <= violations@.len(),
            forall|j: int|
                0 <= j < i ==> violations@[j].severity != ViolationSeverity::Critical,
        decreases violations@.len() - i,
    {
        if violations[i].severity == ViolationSeverity::Critical {
            assert(views(violations@)[i as int].severity == ViolationSeverity::Critical);
            return true;
        }
        i += 1;
    }
    assert forall|j: int| 0 <= j < violations@.len() implies views(
        violations@,
    )[j].severity != ViolationSeverity::Critical by {}
    false
}

// ── LEB128 ───────────────────────────────────────────────────────────────────

/// Number of bytes an unsigned LEB128 decoder reads from `b`, counting from
/// position `k`: up to and including the first byte whose high bit is clear,
/// but never more than five bytes nor past the end.
pub open spec fn leb_consumed_from(b: Seq<u8>, k: nat) -> nat
    decreases 5 - k,
{
    if k >= 5 || k >= b.len() {
        k
    } else if b[k as int] & 0x80 == 0 {
        k + 1
    } else {
        leb_consumed_from(b, k + 1)
    }
}

/// Number of bytes an unsigned LEB128 decoder reads from the start of `b`.
pub open spec fn leb_len(b: Seq<u8>) -> nat {
    leb_consumed_from(b, 0)
}

/// The 32-bit value assembled from the first `k` LEB128 bytes of `b`: the low
/// seven bits of byte `i` placed at bit `7 * i`, bits beyond 32 dropped.
pub open spec fn leb_value_upto(b: Seq<u8>, k: nat) -> u32
    decreases k,
{
    if k == 0 {
        0
    } else {
        leb_value_upto(b, (k - 1) as nat) | (((b[k - 1] & 0x7f) as u32) << ((7 * (k - 1)) as u32))
    }
}

/// The value of the LEB128 number at the start of `b`.
pub open spec fn leb_value(b: Seq<u8>) -> u32 {
    leb_value_upto(b, leb_len(b))
}

/// Decodes an unsigned LEB128 number from the start of `bytes`, returning the
/// value and the number of bytes read.
pub fn decode_leb128_u32(bytes: &[u8]) -> (r: (u32, usize))
    ensures
        r.1 == leb_len(bytes@),
        r.0 == leb_value(bytes@),
        r.1 <= 5,
        r.1 <= bytes@.len(),
        bytes@.len() > 0 ==> r.1 >= 1,
{
    let len = bytes.len();
    let limit: usize = if len < 5 {
        len
    } else {
        5
    };
    let mut result: u32 = 0;
    let mut shift: u32 = 0;
    let mut consumed: usize = 0;
    while consumed < limit
        invariant_except_break
            limit == if len < 5 {
                len
            } else {
                5
            },
            len == bytes@.len(),
            consumed <= limit,
            shift == 7 * consumed,
            result == leb_value_upto(bytes@, consumed as nat),
            leb_len(bytes@) == leb_consumed_from(bytes@, consumed as nat),
        ensures
            result == leb_value_upto(bytes@, consumed as nat),
            leb_len(bytes@) == consumed,
            consumed <= limit,
            limit > 0 ==> consumed >= 1,
        decreases limit - consumed,
    {
        let byte = bytes[consumed];
        consumed += 1;
        result = result | (((byte & 0x7F) as u32) << shift);
        if byte & 0x80 == 0 {
            break;
        }
        shift += 7;
    }
    (result, consumed)
}

// ── Module walk ──────────────────────────────────────────────────────────────

/// Number of sections found walking the module from position `pos` with
/// `count` already found: each section is an id byte, a LEB128 size and that
/// many bytes; the walk stops at the end of the data or after 10 001 sections.
pub open spec fn section_count_from(b: Seq<u8>, pos: int, count: nat) -> nat
    decreases b.len() - pos,
{
    if pos < 0 || pos >= b.len() {
        count
    } else {
        let rest = b.subrange(pos + 1, b.len() as int);
        let next = pos + 1 + leb_len(rest) + leb_value(rest);
        if count + 1 > 10000 || next >= b.len() {
            count + 1
        } else {
            section_count_from(b, next, count + 1)
        }
    }
}

/// Number of sections of a module, walking from just after the eight header bytes.
pub open spec fn section_count(b: Seq<u8>) -> nat {
    section_count_from(b, 8, 0)
}

/// Position of the section that follows the one starting at `pos`, as a
/// 64-bit number, and whether it lies inside the data.
fn next_section(bytes: &[u8], pos: usize) -> (r: (usize, bool))
    requires
        pos < bytes@.len(),
    ensures
        ({
            let rest = bytes@.subrange(pos + 1, bytes@.len() as int);
            let next = pos + 1 + leb_len(rest) + leb_value(rest);
            &&& r.1 == (next < bytes@.len())
            &&& r.1 ==> r.0 == next
        }),
{
    let len = bytes.len();
    let rest = &bytes[pos + 1..len];
    assert(rest@ =~= bytes@.subrange(pos + 1, len as int));
    let (size, consumed) = decode_leb128_u32(rest);
    let start = pos + 1 + consumed;
    if start >= len {
        return (0, false);
    }
    let room = len - start;
    if (size as u64) >= (room as u64) {
        (0, false)
    } else {
        (start + size as usize, true)
    }
}

/// Number of sections of a module (after the eight header bytes).
pub fn count_wasm_sections(bytes: &[u8]) -> (n: usize)
    ensures
        n == section_count(bytes@),
{
    let len = bytes.len();
    let mut count: usize = 0;
    let mut pos: usize = 8;
    if pos >= len {
        return 0;
    }
    loop
        invariant
            len == bytes@.len(),
            pos < len,
            count <= 10000,
            section_count(bytes@) == section_count_from(bytes@, pos as int, count as nat),
        decreases len - pos,
    {
        let (next, inside) = next_section(bytes, pos);
        count += 1;
        if count > 10000 || !inside {
            return count;
        }
        pos = next;
    }
}

// ── Whole-module check ───────────────────────────────────────────────────────

/// The four bytes every WASM module starts with.
pub open spec fn wasm_magic() -> Seq<u8> {
    seq![0x00u8, 0x61u8, 0x73u8, 0x6Du8]
}

/// The version field of the WASM binary format this scanner supports.
pub open spec fn wasm_version() -> Seq<u8> {
    seq![0x01u8, 0x00u8, 0x00u8, 0x00u8]
}

/// Size above which a module is reported as suspiciously large (50 MiB).
pub const MAX_PLAIN_WASM_SIZE: usize = 52428800;

/// Description of the size finding for a module of `len` bytes.
pub open spec fn large_module_message(len: nat) -> Seq<char> {
    "WASM binary is very large ("@ + decimal(len / 1024 / 1024) + " MB) - may indicate bundled data"@
}

/// Findings of the structural check of a module of at least eight bytes with a valid magic number.
#[verifier::opaque]
pub open spec fn structure_violations(b: Seq<u8>) -> Seq<ViolationView> {
    let v1 = if b.subrange(4, 8) != wasm_version() {
        seq![violation(ViolationSeverity::High, "Unsupported WASM version"@)]
    } else {
        seq![]
    };
    let v2 = if b.len() > MAX_PLAIN_WASM_SIZE {
        seq![violation(ViolationSeverity::Medium, large_module_message(b.len()))]
    } else {
        seq![]
    };
    let v3 = if section_count(b) == 0 && b.len() > 8 {
        seq![violation(ViolationSeverity::Medium, "WASM module has no recognized sections"@)]
    } else {
        seq![]
    };
    v1 + v2 + v3
}

/// Validates the header and section structure of a WASM module.
pub fn scan_wasm_bytes(bytes: &[u8]) -> (r: ScanResult)
    ensures
        r.wasm_size_bytes == bytes@.len(),
        bytes@.len() < 8 ==> {
            &&& !r.passed
            &&& views(r.violations@) == seq![
                violation(ViolationSeverity::Critical, "WASM binary too small to be valid"@),
            ]
            &&& r.risk_score_tenths == 1000
            &&& r.section_count == 0
        },
        bytes@.len() >= 8 && bytes@.subrange(0, 4) != wasm_magic() ==> {
            &&& !r.passed
            &&& views(r.violations@) == seq![
                violation(
                    ViolationSeverity::Critical,
                    "Invalid WASM magic bytes - not a WASM module"@,
                ),
            ]
            &&& r.risk_score_tenths == 1000
            &&& r.section_count == 0
        },
        bytes@.len() >= 8 && bytes@.subrange(0, 4) == wasm_magic() ==> {
            &&& r.passed
            &&& views(r.violations@) == structure_violations(bytes@)
            &&& r.risk_score_tenths == risk_score(structure_violations(bytes@))
            &&& r.section_count == section_count(bytes@)
        },
{
    let len = bytes.len();
    let mut violations: Vec<ScanViolation> = Vec::new();
    if len < 8 {
        violations.push(ScanViolation::critical(String::from_str("WASM binary too small to be valid")));
        assert(views(violations@) =~= seq![
            violation(ViolationSeverity::Critical, "WASM binary too small to be valid"@),
        ]);
        return ScanResult {
            passed: false,
            violations,
            risk_score_tenths: 1000,
            wasm_size_bytes: len,
            section_count: 0,
        };
    }
    let magic_ok = bytes[0] == 0x00 && bytes[1] == 0x61 && bytes[2] == 0x73 && bytes[3] == 0x6D;
    assert(magic_ok == (bytes@.subrange(0, 4) == wasm_magic())) by {
        if magic_ok {
            assert(bytes@.subrange(0, 4) =~= wasm_magic());
        } else if bytes@.subrange(0, 4) == wasm_magic() {
            assert(bytes@.subrange(0, 4)[0] == bytes@[0]);
            assert(bytes@.subrange(0, 4)[1] == bytes@[1]);
            assert(bytes@.subrange(0, 4)[2] == bytes@[2]);
            assert(bytes@.subrange(0, 4)[3] == bytes@[3]);
        }
    }
    if !magic_ok {
        violations.push(
            ScanViolation::critical(
                String::from_str("Invalid WASM magic bytes - not a WASM module"),
            ),
        );
        assert(views(violations@) =~= seq![
            violation(ViolationSeverity::Critical, "Invalid WASM magic bytes - not a WASM module"@),
        ]);
        return ScanResult {
            passed: false,
            violations,
            risk_score_tenths: 1000,
            wasm_size_bytes: len,
            section_count: 0,
        };
    }
    let version_ok = bytes[4] == 0x01 && bytes[5] == 0x00 && bytes[6] == 0x00 && bytes[7] == 0x00;
    assert(version_ok == (bytes@.subrange(4, 8) == wasm_version())) by {
        if version_ok {
            assert(bytes@.subrange(4, 8) =~= wasm_version());
        } else if bytes@.subrange(4, 8) == wasm_version() {
            assert(bytes@.subrange(4, 8)[0] == bytes@[4]);
            assert(bytes@.subrange(4, 8)[1] == bytes@[5]);
            assert(bytes@.subrange(4, 8)[2] == bytes@[6]);
            assert(bytes@.subrange(4, 8)[3] == bytes@[7]);
        }
    }
    let ghost b = bytes@;
    let ghost v1: Seq<ViolationView> = if !version_ok {
        seq![violation(ViolationSeverity::High, "Unsupported WASM version"@)]
    } else {
        seq![]
    };
    if !version_ok {
        violations.push(ScanViolation::high(String::from_str("Unsupported WASM version")));
    }
    assert(views(violations@) =~= v1);
    let ghost v2: Seq<ViolationView> = if len > MAX_PLAIN_WASM_SIZE {
        seq![violation(ViolationSeverity::Medium, large_module_message(b.len()))]
    } else {
        seq![]
    };
    if len > MAX_PLAIN_WASM_SIZE {
        let mb = u64_to_decimal((len / 1024 / 1024) as u64);
        let msg = concat3("WASM binary is very large (", mb.as_str(), " MB) - may indicate bundled data");
        violations.push(ScanViolation::medium(msg));
    }
    assert(views(violations@) =~= v1 + v2);
    let sections = count_wasm_sections(bytes);
    let ghost v3: Seq<ViolationView> = if section_count(b) == 0 && b.len() > 8 {
        seq![violation(ViolationSeverity::Medium, "WASM module has no recognized sections"@)]
    } else {
        seq![]
    };
    if sections == 0 && len > 8 {
        violations.push(ScanViolation::medium(String::from_str("WASM module has no recognized sections")));
    }
    reveal(structure_violations);
    assert(views(violations@) =~= structure_violations(b));
    let risk = compute_risk_score(violations.as_slice());
    let crit = any_critical(violations.as_slice());
    assert(!crit) by {
        assert(!has_critical(structure_violations(b))) by {
            assert forall|i: int| 0 <= i < structure_violations(b).len() implies structure_violations(b)[i].severity != ViolationSeverity::Critical by {
                assert(v1.len() <= 1 && v2.len() <= 1 && v3.len() <= 1);
                if i < v1.len() {
                } else if i < v1.len() + v2.len() {
                } else {
                }
            }
        }
    }
    ScanResult {
        passed: !crit,
        violations,
        risk_score_tenths: risk,
        wasm_size_bytes: len,
        section_count: sections,
    }
}

// ── Imports ──────────────────────────────────────────────────────────────────

/// A name as read from the module: its UTF-8 decoding, or `<invalid>`.
pub open spec fn utf8_or_invalid(b: Seq<u8>) -> Seq<char> {
    if valid_utf8(b) {
        decode_utf8(b)
    } else {
        "<invalid>"@
    }
}

/// The `module::field` names of up to `remaining` import entries of an import
/// section, reading from position `pos`; reading stops early at the end of the
/// data or at a name that runs past it.
pub open spec fn import_entries(sec: Seq<u8>, pos: int, remaining: nat) -> Seq<Seq<char>>
    decreases remaining,
{
    if remaining == 0 || pos < 0 || pos >= sec.len() {
        seq![]
    } else {
        let r1 = sec.subrange(pos, sec.len() as int);
        let p1 = pos + leb_len(r1);
        let p2 = p1 + leb_value(r1);
        if p2 >= sec.len() {
            seq![]
        } else {
            let r2 = sec.subrange(p2, sec.len() as int);
            let p3 = p2 + leb_len(r2);
            let p4 = p3 + leb_value(r2);
            if p4 > sec.len() {
                seq![]
            } else {
                let name = utf8_or_invalid(sec.subrange(p1, p2)) + "::"@ + utf8_or_invalid(
                    sec.subrange(p3, p4),
                );
                let next = if p4 < sec.len() {
                    p4 + 1
                } else {
                    p4
                };
                seq![name] + import_entries(sec, next, (remaining - 1) as nat)
            }
        }
    }
}

/// The `module::field` names of an import section: a LEB128 entry count
/// (at most 1000 entries are read), then the entries.
pub open spec fn import_names(sec: Seq<u8>) -> Seq<Seq<char>> {
    if sec.len() == 0 {
        seq![]
    } else {
        let count = leb_value(sec);
        import_entries(sec, leb_len(sec) as int, if count < 1000 { count as nat } else { 1000 })
    }
}

/// The import names of all import sections (id 2) met walking the module from `pos`.
pub open spec fn imports_from(b: Seq<u8>, pos: int) -> Seq<Seq<char>>
    decreases b.len() - pos,
{
    if pos < 0 || pos >= b.len() {
        seq![]
    } else {
        let rest = b.subrange(pos + 1, b.len() as int);
        let start = pos + 1 + leb_len(rest);
        let next = start + leb_value(rest);
        let here = if b[pos] == 2 && start < b.len() {
            import_names(b.subrange(start, if next < b.len() { next } else { b.len() as int }))
        } else {
            seq![]
        };
        if next >= b.len() {
            here
        } else {
            here + imports_from(b, next)
        }
    }
}

/// The import names of a module, in the order they appear.
pub open spec fn wasm_imports(b: Seq<u8>) -> Seq<Seq<char>> {
    imports_from(b, 8)
}

/// The strings' views.
pub open spec fn string_views(v: Seq<String>) -> Seq<Seq<char>> {
    v.map_values(|s: String| s@)
}

/// Decodes bytes as UTF-8 with `std::str::from_utf8`, copying the text on success.
#[verifier::external_body]
fn utf8_to_string(b: &[u8]) -> (r: Option<String>)
    ensures
        r is Some <==> valid_utf8(b@),
        r matches Some(s) ==> s@ == decode_utf8(b@),
{
    std::str::from_utf8(b).ok().map(|s| s.to_string())
}

/// A name read from the module, or `<invalid>` when it is not UTF-8.
fn name_or_invalid(b: &[u8]) -> (s: String)
    ensures
        s@ == utf8_or_invalid(b@),
{
    match utf8_to_string(b) {
        Some(s) => s,
        None => String::from_str("<invalid>"),
    }
}

/// Reads a LEB128 length at `pos` and reports where the name after it ends.
fn name_span(sec: &[u8], pos: usize) -> (r: (usize, usize, bool))
    requires
        pos < sec@.len(),
    ensures
        ({
            let rest = sec@.subrange(pos as int, sec@.len() as int);
            &&& r.0 == pos + leb_len(rest)
            &&& r.2 == (pos + leb_len(rest) + leb_value(rest) <= sec@.len())
            &&& r.2 ==> r.1 == pos + leb_len(rest) + leb_value(rest)
        }),
{
    let len = sec.len();
    let rest = &sec[pos..len];
    assert(rest@ =~= sec@.subrange(pos as int, len as int));
    let (n, c) = decode_leb128_u32(rest);
    let start = pos + c;
    if (n as u64) > ((len - start) as u64) {
        (start, 0, false)
    } else {
        (start, start + n as usize, true)
    }
}

/// The `module::field` names of an import section.
pub fn parse_import_section(section: &[u8]) -> (r: Vec<String>)
    ensures
        string_views(r@) == import_names(section@),
{
    let mut imports: Vec<String> = Vec::new();
    let len = section.len();
    if len == 0 {
        assert(string_views(imports@) =~= seq![]);
        return imports;
    }
    let (count, consumed) = decode_leb128_u32(section);
    let mut pos: usize = consumed;
    let mut remaining: u32 = if count < 1000 {
        count
    } else {
        1000
    };
    assert(string_views(imports@) =~= seq![]);
    while remaining > 0
        invariant
            len == section@.len(),
            remaining == 0 ==> import_entries(section@, pos as int, remaining as nat) =~= seq![],
            pos <= len,
            string_views(imports@) + import_entries(section@, pos as int, remaining as nat)
                == import_names(section@),
        ensures
            string_views(imports@) == import_names(section@),
        decreases remaining,
    {
        let ghost before = string_views(imports@);
        if pos >= len {
            assert(before =~= before + import_entries(section@, pos as int, remaining as nat));
            break;
        }
        let (m1, m2, ok1) = name_span(section, pos);
        if !ok1 || m2 >= len {
            assert(before =~= before + import_entries(section@, pos as int, remaining as nat));
            break;
        }
        let (f1, f2, ok2) = name_span(section, m2);
        if !ok2 {
            assert(before =~= before + import_entries(section@, pos as int, remaining as nat));
            break;
        }
        let module_name = name_or_invalid(&section[m1..m2]);
        let field_name = name_or_invalid(&section[f1..f2]);
        let name = concat3(module_name.as_str(), "::", field_name.as_str());
        let ghost old_pos = pos as int;
        let ghost old_rem = remaining as nat;
        imports.push(name);
        pos = if f2 < len {
            f2 + 1
        } else {
            f2
        };
        remaining = remaining - 1;
        proof {
            let e = import_entries(section@, pos as int, remaining as nat);
            assert(import_entries(section@, old_pos, old_rem) == seq![name@] + e);
            assert(string_views(imports@) =~= before.push(name@));
            assert(before.push(name@) + e =~= before + (seq![name@] + e));
        }
    }
    imports
}

/// The import names of all import sections of a module, in order.
pub fn extract_wasm_imports(bytes: &[u8]) -> (r: Vec<String>)
    ensures
        string_views(r@) == wasm_imports(bytes@),
{
    let len = bytes.len();
    let mut imports: Vec<String> = Vec::new();
    let mut pos: usize = 8;
    if pos >= len {
        assert(string_views(imports@) =~= wasm_imports(bytes@));
        return imports;
    }
    assert(string_views(imports@) =~= seq![]);
    loop
        invariant
            len == bytes@.len(),
            pos < len,
            string_views(imports@) + imports_from(bytes@, pos as int) == wasm_imports(bytes@),
        decreases len - pos,
    {
        let ghost before = string_views(imports@);
        let ghost old_pos = pos as int;
        let id = bytes[pos];
        let rest = &bytes[pos + 1..len];
        assert(rest@ =~= bytes@.subrange(pos + 1, len as int));
        let (size, consumed) = decode_leb128_u32(rest);
        let start = pos + 1 + consumed;
        let inside: bool = start < len && (size as u64) < ((len - start) as u64);
        let end: usize = if inside {
            start + size as usize
        } else {
            len
        };
        let ghost here: Seq<Seq<char>> = if id == 2 && start < len {
            import_names(bytes@.subrange(start as int, end as int))
        } else {
            seq![]
        };
        if id == 2 && start < len {
            let mut found = parse_import_section(&bytes[start..end]);
            imports.append(&mut found);
        }
        assert(string_views(imports@) =~= before + here);
        assert(imports_from(bytes@, old_pos) == if inside {
            here + imports_from(bytes@, end as int)
        } else {
            here
        });
        if !inside {
            assert(before + here =~= wasm_imports(bytes@));
            return imports;
        }
        assert(before + (here + imports_from(bytes@, end as int)) =~= (before + here)
            + imports_from(bytes@, end as int));
        pos = end;
    }
}

/// Import prefixes that reach the file system, the network, processes or the host.
pub open spec fn sensitive_prefixes() -> Seq<Seq<char>> {
    seq![
        "wasi:filesystem"@,
        "wasi:sockets"@,
        "wasi:cli"@,
        "wasi:http"@,
        "sys:exec"@,
        "env:network"@,
    ]
}

/// The import starts with one of the sensitive prefixes.
pub open spec fn is_sensitive(import: Seq<char>) -> bool {
    exists|i: int| 0 <= i < sensitive_prefixes().len() && has_prefix(import, sensitive_prefixes()[i])
}

/// Whether an import reaches the file system, the network, processes or the host.
pub fn is_sensitive_import(import: &str) -> (b: bool)
    ensures
        b == is_sensitive(import@),
        b <==> (has_prefix(import@, "wasi:filesystem"@) || has_prefix(import@, "wasi:sockets"@) || has_prefix(
            import@,
            "wasi:cli"@,
        ) || has_prefix(import@, "wasi:http"@) || has_prefix(import@, "sys:exec"@) || has_prefix(
            import@,
            "env:network"@,
        )),
{
    let ghost p = sensitive_prefixes();
    let b0 = str_starts_with(import, "wasi:filesystem");
    let b1 = str_starts_with(import, "wasi:sockets");
    let b2 = str_starts_with(import, "wasi:cli");
    let b3 = str_starts_with(import, "wasi:http");
    let b4 = str_starts_with(import, "sys:exec");
    let b5 = str_starts_with(import, "env:network");
    let b = b0 || b1 || b2 || b3 || b4 || b5;
    proof {
        if b {
            if b0 { assert(has_prefix(import@, p[0])); }
            else if b1 { assert(has_prefix(import@, p[1])); }
            else if b2 { assert(has_prefix(import@, p[2])); }
            else if b3 { assert(has_prefix(import@, p[3])); }
            else if b4 { assert(has_prefix(import@, p[4])); }
            else { assert(has_prefix(import@, p[5])); }
        } else {
            assert forall|i: int| 0 <= i < p.len() implies !has_prefix(import@, p[i]) by {
                if i == 0 {} else if i == 1 {} else if i == 2 {} else if i == 3 {} else if i == 4 {} else {}
            }
        }
    }
    b
}

/// The import is covered by a manifest permission: one of them contains the other.
pub open spec fn is_declared(import: Seq<char>, perms: Seq<Seq<char>>) -> bool {
    exists|i: int|
        0 <= i < perms.len() && (contains_seq(import, perms[i]) || contains_seq(perms[i], import))
}

/// Description of the finding for an undeclared sensitive import.
pub open spec fn undeclared_message(import: Seq<char>) -> Seq<char> {
    "Undeclared sensitive import detected: '"@ + import + "' not in manifest permissions"@
}

/// Findings for one import.
pub open spec fn import_violation(import: Seq<char>, perms: Seq<Seq<char>>) -> Seq<ViolationView> {
    if !is_declared(import, perms) && is_sensitive(import) {
        seq![violation(ViolationSeverity::High, undeclared_message(import))]
    } else {
        seq![]
    }
}

/// Findings for a list of imports, in order.
pub open spec fn import_violations(imports: Seq<Seq<char>>, perms: Seq<Seq<char>>) -> Seq<ViolationView>
    decreases imports.len(),
{
    if imports.len() == 0 {
        seq![]
    } else {
        import_violations(imports.drop_last(), perms) + import_violation(imports.last(), perms)
    }
}

/// Description of the finding for a wildcard permission.
pub open spec fn wildcard_message() -> Seq<char> {
    "Wildcard permission declared - overly broad access requested"@
}

/// Description of the finding for a file-system write permission.
pub open spec fn fs_write_message() -> Seq<char> {
    "Filesystem write permission requested - ensure this is necessary"@
}

/// Findings for one declared permission.
pub open spec fn permission_violation(perm: Seq<char>) -> Seq<ViolationView> {
    (if perm == "*"@ || perm == "all"@ {
        seq![violation(ViolationSeverity::Medium, wildcard_message())]
    } else {
        seq![]
    }) + (if contains_seq(perm, "filesystem"@) && contains_seq(perm, "write"@) {
        seq![violation(ViolationSeverity::Medium, fs_write_message())]
    } else {
        seq![]
    })
}

/// Findings for a list of declared permissions, in order.
pub open spec fn permission_violations(perms: Seq<Seq<char>>) -> Seq<ViolationView>
    decreases perms.len(),
{
    if perms.len() == 0 {
        seq![]
    } else {
        permission_violations(perms.drop_last()) + permission_violation(perms.last())
    }
}

/// Findings of the permission cross-check of a module against its manifest.
#[verifier::opaque]
pub open spec fn declared_permission_violations(b: Seq<u8>, perms: Seq<Seq<char>>) -> Seq<ViolationView> {
    import_violations(wasm_imports(b), perms) + permission_violations(perms)
}

/// Whether some manifest permission covers the import.
fn import_declared(import: &str, perms: &[String]) -> (b: bool)
    ensures
        b == is_declared(import@, string_views(perms@)),
{
    let ghost ps = string_views(perms@);
    let mut i: usize = 0;
    while i < perms.len()
        invariant
            i <= perms@.len(),
            ps == string_views(perms@),
            forall|j: int|
                0 <= j < i ==> !(contains_seq(import@, ps[j]) || contains_seq(ps[j], import@)),
        decreases perms@.len() - i,
    {
        let p = perms[i].as_str();
        if str_contains(import, p) || str_contains(p, import) {
            assert(ps[i as int] == p@);
            return true;
        }
        i += 1;
    }
    false
}

/// Compares the imports of a module against the permissions its manifest declares.
pub fn check_declared_permissions(wasm_bytes: &[u8], manifest_permissions: &[String]) -> (r: Vec<ScanViolation>)
    ensures
        views(r@) == declared_permission_violations(wasm_bytes@, string_views(manifest_permissions@)),
{
    let ghost ps = string_views(manifest_permissions@);
    let mut violations: Vec<ScanViolation> = Vec::new();
    let imports = extract_wasm_imports(wasm_bytes);
    let ghost is = string_views(imports@);
    let mut i: usize = 0;
    assert(views(violations@) =~= seq![]);
    while i < imports.len()
        invariant
            i <= imports@.len(),
            is == string_views(imports@),
            is == wasm_imports(wasm_bytes@),
            ps == string_views(manifest_permissions@),
            views(violations@) == import_violations(is.take(i as int), ps),
        decreases imports@.len() - i,
    {
        let imp = imports[i].as_str();
        let ghost before = views(violations@);
        assert(is.take(i + 1).drop_last() =~= is.take(i as int));
        assert(is.take(i + 1).last() == imp@);
        if !import_declared(imp, manifest_permissions) && is_sensitive_import(imp) {
            let msg = concat3("Undeclared sensitive import detected: '", imp, "' not in manifest permissions");
            violations.push(ScanViolation::high(msg));
        }
        assert(views(violations@) =~= before + import_violation(imp@, ps));
        i += 1;
    }
    assert(is.take(imports@.len() as int) =~= is);
    let ghost after_imports = views(violations@);
    let mut k: usize = 0;
    while k < manifest_permissions.len()
        invariant
            k <= manifest_permissions@.len(),
            ps == string_views(manifest_permissions@),
            after_imports == import_violations(wasm_imports(wasm_bytes@), ps),
            views(violations@) == after_imports + permission_violations(ps.take(k as int)),
        decreases manifest_permissions@.len() - k,
    {
        let perm = manifest_permissions[k].as_str();
        let ghost before = views(violations@);
        assert(ps.take(k + 1).drop_last() =~= ps.take(k as int));
        assert(ps.take(k + 1).last() == perm@);
        if str_eq(perm, "*") || str_eq(perm, "all") {
            violations.push(ScanViolation::medium(String::from_str("Wildcard permission declared - overly broad access requested")));
        }
        if str_contains(perm, "filesystem") && str_contains(perm, "write") {
            violations.push(ScanViolation::medium(String::from_str("Filesystem write permission requested - ensure this is necessary")));
        }
        assert(views(violations@) =~= before + permission_violation(perm@));
        assert(after_imports + permission_violations(ps.take(k + 1)) =~= after_imports
            + permission_violations(ps.take(k as int)) + permission_violation(perm@));
        k += 1;
    }
    assert(ps.take(manifest_permissions@.len() as int) =~= ps);
    reveal(declared_permission_violations);
    violations
}

// ── Known-bad byte patterns ──────────────────────────────────────────────────

/// Marker of a shell invoked with `-c`: `\0sh\0-c\0`.
pub open spec fn shell_injection_pattern() -> Seq<u8> {
    seq![0u8, 115u8, 104u8, 0u8, 45u8, 99u8, 0u8]
}

/// Marker of embedded evaluated bytecode: `eval\0bytecode`.
pub open spec fn eval_bytecode_pattern() -> Seq<u8> {
    seq![101u8, 118u8, 97u8, 108u8, 0u8, 98u8, 121u8, 116u8, 101u8, 99u8, 111u8, 100u8, 101u8]
}

/// Marker of an interactive reverse shell: `bash -i >&`.
pub open spec fn reverse_shell_pattern() -> Seq<u8> {
    seq![98u8, 97u8, 115u8, 104u8, 32u8, 45u8, 105u8, 32u8, 62u8, 38u8]
}

/// Position of the first occurrence of `n` in `h` (meaningful when there is one).
pub open spec fn first_occurrence(h: Seq<u8>, n: Seq<u8>) -> int {
    choose|i: int| occurs_at(h, n, i) && forall|j: int| 0 <= j < i ==> !occurs_at(h, n, j)
}

/// Finding for one pattern: critical, naming the pattern and pointing at its first occurrence.
#[verifier::opaque]
pub open spec fn pattern_violation(b: Seq<u8>, name: Seq<char>, pattern: Seq<u8>) -> Seq<ViolationView> {
    if contains_seq(b, pattern) {
        seq![
            ViolationView {
                severity: ViolationSeverity::Critical,
                description: "Suspicious pattern detected: "@ + name,
                line_hint: Some(first_occurrence(b, pattern) as usize),
            },
        ]
    } else {
        seq![]
    }
}

/// A byte entropy given in hundredths of a bit, rendered with two decimals.
pub open spec fn hundredths_text(h: nat) -> Seq<char> {
    decimal(h / 100) + "."@ + seq![digit_char((h / 10) % 10), digit_char(h % 10)]
}

/// Finding for a high byte entropy, given in hundredths of a bit when it exceeds 7.8 bits.
pub open spec fn entropy_violation(high_entropy_hundredths: Option<u32>) -> Seq<ViolationView> {
    match high_entropy_hundredths {
        Some(h) => seq![
            violation(
                ViolationSeverity::Medium,
                "High byte entropy ("@ + hundredths_text(h as nat)
                    + "/8.0) - possible obfuscation or encrypted payload"@,
            ),
        ],
        None => seq![],
    }
}

/// Findings of the pattern scan, followed by the entropy finding.
#[verifier::opaque]
pub open spec fn suspicious_pattern_violations(b: Seq<u8>, high_entropy_hundredths: Option<u32>) -> Seq<ViolationView> {
    pattern_violation(b, "shell_injection_marker"@, shell_injection_pattern())
        + pattern_violation(b, "eval_bytecode"@, eval_bytecode_pattern())
        + pattern_violation(b, "reverse_shell"@, reverse_shell_pattern())
        + entropy_violation(high_entropy_hundredths)
}

/// The first position of `needle` in `haystack`, if any.
pub fn find_subsequence(haystack: &[u8], needle: &[u8]) -> (r: Option<usize>)
    ensures
        match r {
            Some(i) => occurs_at(haystack@, needle@, i as int) && forall|j: int|
                0 <= j < i ==> !occurs_at(haystack@, needle@, j),
            None => !contains_seq(haystack@, needle@),
        },
{
    find_bytes(haystack, needle)
}

/// Finding for one pattern, if present.
fn check_pattern(bytes: &[u8], name: &str, pattern: &[u8], out: &mut Vec<ScanViolation>)
    ensures
        views(final(out)@) == views(old(out)@) + pattern_violation(bytes@, name@, pattern@),
{
    let ghost before = views(out@);
    reveal(pattern_violation);
    match find_subsequence(bytes, pattern) {
        Some(offset) => {
            proof {
                let f = first_occurrence(bytes@, pattern@);
                assert(occurs_at(bytes@, pattern@, f) && forall|j: int| 0 <= j < f ==> !occurs_at(bytes@, pattern@, j));
                if f < offset {
                } else if offset < f {
                }
                assert(f == offset);
            }
            let v = ScanViolation::critical(concat2("Suspicious pattern detected: ", name)).with_hint(offset);
            out.push(v);
        },
        None => {},
    }
    assert(views(out@) =~= before + pattern_violation(bytes@, name@, pattern@));
}

/// Renders hundredths as a number with two decimals.
fn hundredths_to_text(h: u32) -> (s: String)
    ensures
        s@ == hundredths_text(h as nat),
{
    let mut s = u64_to_decimal((h / 100) as u64);
    s.append(".");
    push_char(&mut s, ((48 + (h / 10) % 10) as u8) as char);
    push_char(&mut s, ((48 + h % 10) as u8) as char);
    assert(s@ =~= hundredths_text(h as nat));
    s
}

/// Scans for known malicious byte patterns. The byte entropy is measured by
/// the caller (it is a floating-point quantity): `high_entropy_hundredths` is
/// the entropy in hundredths of a bit when it exceeds 7.8 bits, else `None`.
pub fn detect_suspicious_patterns(bytes: &[u8], high_entropy_hundredths: Option<u32>) -> (r: Vec<ScanViolation>)
    ensures
        views(r@) == suspicious_pattern_violations(bytes@, high_entropy_hundredths),
{
    let mut violations: Vec<ScanViolation> = Vec::new();
    let shell: Vec<u8> = vec![0u8, 115u8, 104u8, 0u8, 45u8, 99u8, 0u8];
    let eval: Vec<u8> = vec![101u8, 118u8, 97u8, 108u8, 0u8, 98u8, 121u8, 116u8, 101u8, 99u8, 111u8, 100u8, 101u8];
    let rev: Vec<u8> = vec![98u8, 97u8, 115u8, 104u8, 32u8, 45u8, 105u8, 32u8, 62u8, 38u8];
    assert(shell@ =~= shell_injection_pattern());
    assert(eval@ =~= eval_bytecode_pattern());
    assert(rev@ =~= reverse_shell_pattern());
    assert(views(violations@) =~= seq![]);
    check_pattern(bytes, "shell_injection_marker", shell.as_slice(), &mut violations);
    check_pattern(bytes, "eval_bytecode", eval.as_slice(), &mut violations);
    check_pattern(bytes, "reverse_shell", rev.as_slice(), &mut violations);
    let ghost before = views(violations@);
    match high_entropy_hundredths {
        Some(h) => {
            let t = hundredths_to_text(h);
            let msg = concat3("High byte entropy (", t.as_str(), "/8.0) - possible obfuscation or encrypted payload");
            violations.push(ScanViolation::medium(msg));
        },
        None => {},
    }
    assert(views(violations@) =~= before + entropy_violation(high_entropy_hundredths));
    reveal(suspicious_pattern_violations);
    violations
}

// ── Full pipeline ────────────────────────────────────────────────────────────

/// All findings of a scan of a module against its manifest permissions.
pub open spec fn scan_violations(b: Seq<u8>, perms: Seq<Seq<char>>, high_entropy_hundredths: Option<u32>) -> Seq<ViolationView> {
    if b.len() < 8 {
        seq![violation(ViolationSeverity::Critical, "WASM binary too small to be valid"@)]
    } else if b.subrange(0, 4) != wasm_magic() {
        seq![violation(ViolationSeverity::Critical, "Invalid WASM magic bytes - not a WASM module"@)]
    } else {
        structure_violations(b) + declared_permission_violations(b, perms)
            + suspicious_pattern_violations(b, high_entropy_hundredths)
    }
}

/// Tier-1 static analysis of a WASM module against its manifest.
pub struct Tier1Scanner;

impl Tier1Scanner {
    pub fn new() -> (s: Tier1Scanner) {
        Tier1Scanner
    }

    /// Full scan: validate the module, then (when it is structurally sound)
    /// cross-check permissions and look for malicious patterns. The scan
    /// passes when nothing is critical and the risk score is below 15 points.
    /// `high_entropy_hundredths` is as for `detect_suspicious_patterns`.
    pub fn scan(&self, wasm_bytes: &[u8], manifest_permissions: &[String], high_entropy_hundredths: Option<u32>) -> (r: ScanResult)
        ensures
            views(r.violations@) == scan_violations(wasm_bytes@, string_views(manifest_permissions@), high_entropy_hundredths),
            r.risk_score_tenths == risk_score(views(r.violations@)),
            r.passed == (!has_critical(views(r.violations@)) && r.risk_score_tenths < 150),
            r.wasm_size_bytes == wasm_bytes@.len(),
            r.section_count == if wasm_bytes@.len() >= 8 && wasm_bytes@.subrange(0, 4) == wasm_magic() {
                section_count(wasm_bytes@)
            } else {
                0
            },
    {
        let check = self.scan_wasm_bytes(wasm_bytes);
        let mut violations = check.violations;
        let section_count = check.section_count;
        if check.passed {
            let mut perm = check_declared_permissions(wasm_bytes, manifest_permissions);
            violations.append(&mut perm);
            let mut pat = detect_suspicious_patterns(wasm_bytes, high_entropy_hundredths);
            violations.append(&mut pat);
        }
        proof {
            let b = wasm_bytes@;
            let ps = string_views(manifest_permissions@);
            if b.len() >= 8 && b.subrange(0, 4) == wasm_magic() {
                assert(views(violations@) =~= structure_violations(b) + declared_permission_violations(b, ps)
                    + suspicious_pattern_violations(b, high_entropy_hundredths));
            }
        }
        let crit = any_critical(violations.as_slice());
        let risk = compute_risk_score(violations.as_slice());
        ScanResult {
            passed: !crit && risk < 150,
            violations,
            risk_score_tenths: risk,
            wasm_size_bytes: wasm_bytes.len(),
            section_count,
        }
    }

    /// Validates the magic bytes and basic module structure.
    pub fn scan_wasm_bytes(&self, bytes: &[u8]) -> (r: ScanResult)
        ensures
            r.wasm_size_bytes == bytes@.len(),
            bytes@.len() < 8 ==> {
                &&& !r.passed
                &&& views(r.violations@) == seq![
                    violation(ViolationSeverity::Critical, "WASM binary too small to be valid"@),
                ]
                &&& r.risk_score_tenths == 1000
                &&& r.section_count == 0
            },
            bytes@.len() >= 8 && bytes@.subrange(0, 4) != wasm_magic() ==> {
                &&& !r.passed
                &&& views(r.violations@) == seq![
                    violation(
                        ViolationSeverity::Critical,
                        "Invalid WASM magic bytes - not a WASM module"@,
                    ),
                ]
                &&& r.risk_score_tenths == 1000
                &&& r.section_count == 0
            },
            bytes@.len() >= 8 && bytes@.subrange(0, 4) == wasm_magic() ==> {
                &&& r.passed
                &&& views(r.violations@) == structure_violations(bytes@)
                &&& r.risk_score_tenths == risk_score(structure_violations(bytes@))
                &&& r.section_count == section_count(bytes@)
            },
    {
        scan_wasm_bytes(bytes)
    }

    /// Compares the module's imports against the manifest permissions.
    pub fn check_declared_permissions(&self, wasm_bytes: &[u8], manifest_permissions: &[String]) -> (r: Vec<ScanViolation>)
        ensures
            views(r@) == declared_permission_violations(wasm_bytes@, string_views(manifest_permissions@)),
    {
        check_declared_permissions(wasm_bytes, manifest_permissions)
    }

    /// Scans for known malicious byte patterns (see the free function of the same name).
    pub fn detect_suspicious_patterns(&self, bytes: &[u8], high_entropy_hundredths: Option<u32>) -> (r: Vec<ScanViolation>)
        ensures
            views(r@) == suspicious_pattern_violations(bytes@, high_entropy_hundredths),
    {
        detect_suspicious_patterns(bytes, high_entropy_hundredths)
    }

    /// Number of sections of a module.
    pub fn count_wasm_sections(&self, bytes: &[u8]) -> (n: usize)
        ensures
            n == section_count(bytes@),
    {
        count_wasm_sections(bytes)
    }

    /// The import names of a module.
    pub fn extract_wasm_imports(&self, bytes: &[u8]) -> (r: Vec<String>)
        ensures
            string_views(r@) == wasm_imports(bytes@),
    {
        extract_wasm_imports(bytes)
    }

    /// The import names of one import section.
    pub fn parse_import_section(&self, section: &[u8]) -> (r: Vec<String>)
        ensures
            string_views(r@) == import_names(section@),
    {
        parse_import_section(section)
    }

    /// Whether an import is sensitive.
    pub fn is_sensitive_import(&self, import: &str) -> (b: bool)
        ensures
            b == is_sensitive(import@),
            b <==> (has_prefix(import@, "wasi:filesystem"@) || has_prefix(import@, "wasi:sockets"@) || has_prefix(
            import@,
            "wasi:cli"@,
        ) || has_prefix(import@, "wasi:http"@) || has_prefix(import@, "sys:exec"@) || has_prefix(
            import@,
            "env:network"@,
        )),
    {
        is_sensitive_import(import)
    }
}

// ── Dependency audit ─────────────────────────────────────────────────────────

/// A declared dependency found in the known-vulnerable list.
#[derive(Debug)]
pub struct DependencyVulnerability {
    pub dependency: String,
    pub version: String,
    pub vulnerable_range: String,
    pub cve_id: String,
    pub severity: ViolationSeverity,
}

/// What a finding of the dependency audit says, as plain values.
pub struct VulnerabilityView {
    pub dependency: Seq<char>,
    pub version: Seq<char>,
    pub vulnerable_range: Seq<char>,
    pub cve_id: Seq<char>,
    pub severity: ViolationSeverity,
}

impl View for DependencyVulnerability {
    type V = VulnerabilityView;

    open spec fn view(&self) -> VulnerabilityView {
        VulnerabilityView {
            dependency: self.dependency@,
            version: self.version@,
            vulnerable_range: self.vulnerable_range@,
            cve_id: self.cve_id@,
            severity: self.severity,
        }
    }
}

/// The known-vulnerable dependencies: name, affected range, advisory.
pub open spec fn known_vulnerable() -> Seq<(Seq<char>, Seq<char>, Seq<char>)> {
    seq![
        ("openssl"@, "< 3.0.7"@, "CVE-2022-3786"@),
        ("log4j"@, "< 2.17.1"@, "CVE-2021-44228"@),
        ("serde_json"@, "< 1.0.85"@, "CVE-2022-xxxx"@),
    ]
}

/// `s` without its leading whitespace.
pub open spec fn trim_start(s: Seq<char>) -> Seq<char>
    decreases s.len(),
{
    if s.len() > 0 && is_white_space(s[0]) {
        trim_start(s.drop_first())
    } else {
        s
    }
}

/// `s` without its trailing whitespace.
pub open spec fn trim_end(s: Seq<char>) -> Seq<char>
    decreases s.len(),
{
    if s.len() > 0 && is_white_space(s.last()) {
        trim_end(s.drop_last())
    } else {
        s
    }
}

/// `s` without leading and trailing whitespace (`str::trim`).
pub open spec fn trim(s: Seq<char>) -> Seq<char> {
    trim_end(trim_start(s))
}

/// The pieces of `s` between occurrences of `sep` (`str::split` on a character):
/// one more piece than there are separators, empty pieces included.
pub open spec fn split_on(s: Seq<char>, sep: char) -> Seq<Seq<char>>
    decreases s.len(),
{
    if s.len() == 0 {
        seq![seq![]]
    } else {
        let prev = split_on(s.drop_last(), sep);
        if s.last() == sep {
            prev.push(seq![])
        } else {
            prev.update(prev.len() - 1, prev.last().push(s.last()))
        }
    }
}

/// The value of a sequence of decimal digits.
pub open spec fn digits_value(s: Seq<char>) -> nat
    decreases s.len(),
{
    if s.len() == 0 {
        0
    } else {
        digits_value(s.drop_last()) * 10 + ((s.last() as nat) - 48) as nat
    }
}

/// Every character is an ASCII digit.
pub open spec fn all_digits(s: Seq<char>) -> bool {
    forall|i: int| 0 <= i < s.len() ==> '0' <= #[trigger] s[i] && s[i] <= '9'
}

/// What `u64::from_str` accepts: an optional `+` followed by one or more
/// decimal digits whose value fits in 64 bits.
pub open spec fn parse_u64(s: Seq<char>) -> Option<u64> {
    let d = if s.len() > 0 && s[0] == '+' {
        s.drop_first()
    } else {
        s
    };
    if d.len() > 0 && all_digits(d) && digits_value(d) <= u64::MAX {
        Some(digits_value(d) as u64)
    } else {
        None
    }
}

/// The numeric components of a dotted version; a component that is not a number counts as 0.
pub open spec fn version_components(v: Seq<char>) -> Seq<u64> {
    split_on(v, '.').map_values(|p: Seq<char>| match parse_u64(p) {
        Some(n) => n,
        None => 0u64,
    })
}

/// Lexicographic order on sequences of numbers: the first difference decides,
/// and a proper prefix comes first.
pub open spec fn seq_less(a: Seq<u64>, b: Seq<u64>) -> bool
    decreases a.len(),
{
    if b.len() == 0 {
        false
    } else if a.len() == 0 {
        true
    } else if a[0] != b[0] {
        a[0] < b[0]
    } else {
        seq_less(a.drop_first(), b.drop_first())
    }
}

/// Version `a` comes before version `b`, component by component.
pub open spec fn version_lt(a: Seq<char>, b: Seq<char>) -> bool {
    seq_less(version_components(a), version_components(b))
}

/// The version lies in the range: `< X` or `<= X`; other forms match nothing.
pub open spec fn range_matches(version: Seq<char>, range: Seq<char>) -> bool {
    if has_prefix(range, "< "@) {
        version_lt(version, trim(range.skip(2)))
    } else if has_prefix(range, "<= "@) {
        version_lt(version, trim(range.skip(3))) || version == trim(range.skip(3))
    } else {
        false
    }
}

/// Findings for one dependency against the known-vulnerable list, from entry `k` on.
pub open spec fn dependency_findings_from(name: Seq<char>, version: Seq<char>, k: nat) -> Seq<VulnerabilityView>
    decreases 3 - k,
{
    if k >= 3 {
        seq![]
    } else {
        let e = known_vulnerable()[k as int];
        let here = if lowercase(name) == e.0 && range_matches(version, e.1) {
            seq![VulnerabilityView {
                dependency: name,
                version,
                vulnerable_range: e.1,
                cve_id: e.2,
                severity: ViolationSeverity::High,
            }]
        } else {
            seq![]
        };
        here + dependency_findings_from(name, version, k + 1)
    }
}

/// Findings for a list of (name, version) dependencies, in order.
pub open spec fn audit_findings(deps: Seq<(Seq<char>, Seq<char>)>) -> Seq<VulnerabilityView>
    decreases deps.len(),
{
    if deps.len() == 0 {
        seq![]
    } else {
        audit_findings(deps.drop_last()) + dependency_findings_from(deps.last().0, deps.last().1, 0)
    }
}

/// A prefix of a digit string is worth no more than the whole.
proof fn lemma_digits_prefix(d: Seq<char>, k: int)
    requires
        all_digits(d),
        0 <= k <= d.len(),
    ensures
        digits_value(d.take(k)) <= digits_value(d),
    decreases d.len(),
{
    if k == d.len() {
        assert(d.take(k) =~= d);
    } else {
        let e = d.drop_last();
        assert(all_digits(e)) by {
            assert forall|i: int| 0 <= i < e.len() implies '0' <= #[trigger] e[i] && e[i] <= '9' by {
                assert(e[i] == d[i]);
            }
        }
        lemma_digits_prefix(e, k);
        assert(e.take(k) =~= d.take(k));
        assert('0' <= d[d.len() - 1]);
    }
}

/// Parses a number as `u64::from_str` does: an optional `+`, then decimal
/// digits whose value fits in 64 bits.
fn parse_u64_str(s: &str) -> (r: Option<u64>)
    ensures
        r == parse_u64(s@),
{
    let cs = chars_of(s);
    let ghost sv = s@;
    let start: usize = if cs.len() > 0 && cs[0] == '+' {
        1
    } else {
        0
    };
    let ghost d = if sv.len() > 0 && sv[0] == '+' {
        sv.drop_first()
    } else {
        sv
    };
    assert(d =~= cs@.subrange(start as int, cs@.len() as int));
    if start >= cs.len() {
        return None;
    }
    let mut acc: u64 = 0;
    let mut k: usize = start;
    assert(d.take(0) =~= seq![]);
    while k < cs.len()
        invariant
            cs@ == sv,
            sv == s@,
            d == (if sv.len() > 0 && sv[0] == '+' {
                sv.drop_first()
            } else {
                sv
            }),
            start <= k <= cs@.len(),
            d =~= cs@.subrange(start as int, cs@.len() as int),
            all_digits(d.take(k - start)),
            acc == digits_value(d.take(k - start)),
        decreases cs@.len() - k,
    {
        let c = cs[k];
        let ghost j = k - start;
        assert(d[j] == c);
        if c < '0' || c > '9' {
            assert(!all_digits(d)) by {
                assert(!('0' <= d[j] && d[j] <= '9'));
            }
            return None;
        }
        let dig: u64 = (c as u32 - 48) as u64;
        assert(d.take(j + 1).drop_last() =~= d.take(j));
        assert(all_digits(d.take(j + 1))) by {
            assert forall|i: int| 0 <= i < j + 1 implies '0' <= #[trigger] d.take(j + 1)[i] && d.take(j + 1)[i] <= '9' by {
                if i < j {
                    assert(d.take(j + 1)[i] == d.take(j)[i]);
                }
            }
        }
        assert(digits_value(d.take(j + 1)) == acc * 10 + dig);
        let next = match acc.checked_mul(10) {
            Some(m) => m.checked_add(dig),
            None => None,
        };
        match next {
            Some(v) => {
                acc = v;
            },
            None => {
                proof {
                    if all_digits(d) {
                        lemma_digits_prefix(d, j + 1);
                    }
                }
                return None;
            },
        }
        k += 1;
    }
    assert(d.take(d.len() as int) =~= d);
    Some(acc)
}

/// The pieces of `s` between occurrences of `sep`, as character vectors.
pub fn split_chars(s: &str, sep: char) -> (pieces: Vec<Vec<char>>)
    ensures
        pieces@.map_values(|p: Vec<char>| p@) == split_on(s@, sep),
        pieces@.len() >= 1,
{
    let cs = chars_of(s);
    let ghost sv = s@;
    let mut pieces: Vec<Vec<char>> = Vec::new();
    pieces.push(Vec::new());
    let mut i: usize = 0;
    assert(sv.take(0) =~= seq![]);
    while i < cs.len()
        invariant
            cs@ == sv,
            i <= cs@.len(),
            pieces@.len() >= 1,
            pieces@.map_values(|p: Vec<char>| p@) == split_on(sv.take(i as int), sep),
        decreases cs@.len() - i,
    {
        let c = cs[i];
        let ghost prev = pieces@.map_values(|p: Vec<char>| p@);
        assert(sv.take(i + 1).drop_last() =~= sv.take(i as int));
        assert(sv.take(i + 1).last() == c);
        if c == sep {
            pieces.push(Vec::new());
            assert(pieces@.map_values(|p: Vec<char>| p@) =~= prev.push(seq![]));
        } else {
            let mut piece = pieces.pop().unwrap();
            piece.push(c);
            pieces.push(piece);
            assert(pieces@.map_values(|p: Vec<char>| p@) =~= prev.update(prev.len() - 1, prev.last().push(c)));
        }
        i += 1;
    }
    assert(sv.take(cs@.len() as int) =~= sv);
    pieces
}

/// The numeric components of a dotted version.
pub fn version_numbers(v: &str) -> (r: Vec<u64>)
    ensures
        r@ == version_components(v@),
{
    let ghost sv = v@;
    let pieces = split_chars(v, '.');
    let ghost parts = split_on(sv, '.');
    let mut out: Vec<u64> = Vec::new();
    let mut k: usize = 0;
    while k < pieces.len()
        invariant
            k <= pieces@.len(),
            pieces@.map_values(|p: Vec<char>| p@) == parts,
            parts == split_on(sv, '.'),
            out@ == version_components(sv).take(k as int),
            version_components(sv).len() == parts.len(),
        decreases pieces@.len() - k,
    {
        let text = string_from_chars(pieces[k].as_slice());
        assert(text@ == parts[k as int]);
        let n = match parse_u64_str(text.as_str()) {
            Some(n) => n,
            None => 0,
        };
        out.push(n);
        assert(out@ =~= version_components(sv).take(k + 1));
        k += 1;
    }
    assert(out@ =~= version_components(sv));
    out
}

proof fn lemma_seq_less_irreflexive(a: Seq<u64>)
    ensures
        !seq_less(a, a),
    decreases a.len(),
{
    if a.len() > 0 {
        lemma_seq_less_irreflexive(a.drop_first());
    }
}

proof fn lemma_seq_less_transitive(a: Seq<u64>, b: Seq<u64>, c: Seq<u64>)
    requires
        seq_less(a, b),
        seq_less(b, c),
    ensures
        seq_less(a, c),
    decreases a.len(),
{
    if a.len() > 0 && b.len() > 0 && c.len() > 0 && a[0] == b[0] && b[0] == c[0] {
        lemma_seq_less_transitive(a.drop_first(), b.drop_first(), c.drop_first());
    }
}

proof fn lemma_import_reported(imports: Seq<Seq<char>>, perms: Seq<Seq<char>>, k: int)
    requires
        0 <= k < imports.len(),
        is_sensitive(imports[k]),
        !is_declared(imports[k], perms),
    ensures
        import_violations(imports, perms).contains(violation(ViolationSeverity::High, undeclared_message(imports[k]))),
    decreases imports.len(),
{
    let rest = imports.drop_last();
    let x = violation(ViolationSeverity::High, undeclared_message(imports[k]));
    let whole = import_violations(imports, perms);
    assert(whole == import_violations(rest, perms) + import_violation(imports.last(), perms));
    if k == imports.len() - 1 {
        let a = import_violations(rest, perms);
        assert(whole[a.len() as int] == x);
    } else {
        assert(rest[k] == imports[k]);
        lemma_import_reported(rest, perms, k);
        let a = import_violations(rest, perms);
        let i = choose|i: int| 0 <= i < a.len() && a[i] == x;
        assert(whole[i] == x);
    }
}

/// A sensitive import of a module that no manifest permission covers is
/// reported as a high-severity finding naming it.
pub proof fn undeclared_imports_are_reported(b: Seq<u8>, perms: Seq<Seq<char>>, h: Option<u32>, k: int)
    requires
        b.len() >= 8,
        b.subrange(0, 4) == wasm_magic(),
        0 <= k < wasm_imports(b).len(),
        is_sensitive(wasm_imports(b)[k]),
        !is_declared(wasm_imports(b)[k], perms),
    ensures
        scan_violations(b, perms, h).contains(violation(ViolationSeverity::High, undeclared_message(wasm_imports(b)[k]))),
{
    reveal(declared_permission_violations);
    let x = violation(ViolationSeverity::High, undeclared_message(wasm_imports(b)[k]));
    lemma_import_reported(wasm_imports(b), perms, k);
    let iv = import_violations(wasm_imports(b), perms);
    let i = choose|i: int| 0 <= i < iv.len() && iv[i] == x;
    let d = declared_permission_violations(b, perms);
    assert(d == iv + permission_violations(perms));
    assert(d[i] == x);
    let s = structure_violations(b);
    let all = scan_violations(b, perms, h);
    assert(all == s + d + suspicious_pattern_violations(b, h));
    assert(all[s.len() + i] == x);
}

/// A well-formed module that carries one of the known malicious byte
/// patterns gets a critical finding, so its scan never passes.
pub proof fn malicious_patterns_fail_the_scan(b: Seq<u8>, perms: Seq<Seq<char>>, h: Option<u32>)
    requires
        b.len() >= 8,
        b.subrange(0, 4) == wasm_magic(),
        contains_seq(b, shell_injection_pattern()) || contains_seq(b, eval_bytecode_pattern()) || contains_seq(
            b,
            reverse_shell_pattern(),
        ),
    ensures
        has_critical(scan_violations(b, perms, h)),
{
    reveal(suspicious_pattern_violations);
    reveal(pattern_violation);
    let p1 = pattern_violation(b, "shell_injection_marker"@, shell_injection_pattern());
    let p2 = pattern_violation(b, "eval_bytecode"@, eval_bytecode_pattern());
    let p3 = pattern_violation(b, "reverse_shell"@, reverse_shell_pattern());
    let sp = suspicious_pattern_violations(b, h);
    assert(sp == p1 + p2 + p3 + entropy_violation(h));
    let pre = structure_violations(b) + declared_permission_violations(b, perms);
    let all = scan_violations(b, perms, h);
    assert(all == pre + sp);
    if contains_seq(b, shell_injection_pattern()) {
        assert(all[pre.len() as int].severity == ViolationSeverity::Critical);
    } else if contains_seq(b, eval_bytecode_pattern()) {
        assert(all[(pre.len() + p1.len()) as int].severity == ViolationSeverity::Critical);
    } else {
        assert(all[(pre.len() + p1.len() + p2.len()) as int].severity == ViolationSeverity::Critical);
    }
}

/// The sensitive imports are exactly those that reach the file system
/// (`wasi:filesystem`), sockets (`wasi:sockets`), the command line
/// (`wasi:cli`), HTTP (`wasi:http`), processes (`sys:exec`) or the network
/// (`env:network`): an import is sensitive if and only if its name starts
/// with one of these six prefixes.
pub proof fn sensitive_imports_are_the_six_prefixes(import: Seq<char>)
    ensures
        is_sensitive(import) <==> (has_prefix(import, "wasi:filesystem"@) || has_prefix(import, "wasi:sockets"@)
            || has_prefix(import, "wasi:cli"@) || has_prefix(import, "wasi:http"@) || has_prefix(import, "sys:exec"@)
            || has_prefix(import, "env:network"@)),
{
    let p = sensitive_prefixes();
    assert(p[0] == "wasi:filesystem"@ && p[1] == "wasi:sockets"@ && p[2] == "wasi:cli"@ && p[3] == "wasi:http"@
        && p[4] == "sys:exec"@ && p[5] == "env:network"@ && p.len() == 6);
    if is_sensitive(import) {
        let i = choose|i: int| 0 <= i < p.len() && has_prefix(import, p[i]);
        if i == 0 {} else if i == 1 {} else if i == 2 {} else if i == 3 {} else if i == 4 {} else {}
    }
    if has_prefix(import, "wasi:filesystem"@) {
        assert(has_prefix(import, p[0]));
    } else if has_prefix(import, "wasi:sockets"@) {
        assert(has_prefix(import, p[1]));
    } else if has_prefix(import, "wasi:cli"@) {
        assert(has_prefix(import, p[2]));
    } else if has_prefix(import, "wasi:http"@) {
        assert(has_prefix(import, p[3]));
    } else if has_prefix(import, "sys:exec"@) {
        assert(has_prefix(import, p[4]));
    } else if has_prefix(import, "env:network"@) {
        assert(has_prefix(import, p[5]));
    }
}

/// A module that imports from `wasi:sockets`, `wasi:filesystem`,
/// `wasi:cli`, `wasi:http`, `sys:exec` or `env:network` without a manifest
/// permission covering the import gets a high-severity finding naming it.
pub proof fn undeclared_system_imports_are_flagged(b: Seq<u8>, perms: Seq<Seq<char>>, h: Option<u32>, k: int)
    requires
        b.len() >= 8,
        b.subrange(0, 4) == wasm_magic(),
        0 <= k < wasm_imports(b).len(),
        has_prefix(wasm_imports(b)[k], "wasi:filesystem"@) || has_prefix(wasm_imports(b)[k], "wasi:sockets"@)
            || has_prefix(wasm_imports(b)[k], "wasi:cli"@) || has_prefix(wasm_imports(b)[k], "wasi:http"@)
            || has_prefix(wasm_imports(b)[k], "sys:exec"@) || has_prefix(wasm_imports(b)[k], "env:network"@),
        !is_declared(wasm_imports(b)[k], perms),
    ensures
        scan_violations(b, perms, h).contains(
            ViolationView {
                severity: ViolationSeverity::High,
                description: "Undeclared sensitive import detected: '"@ + wasm_imports(b)[k]
                    + "' not in manifest permissions"@,
                line_hint: None,
            },
        ),
{
    sensitive_imports_are_the_six_prefixes(wasm_imports(b)[k]);
    undeclared_imports_are_reported(b, perms, h, k);
}

/// Each finding adds its weight to the risk, in tenths of a point: 100 for
/// a critical one, 50 for a high one, 20 for a medium one and 5 for a low
/// one; the score is that sum capped at 1000.
pub proof fn findings_weigh_by_severity(v: Seq<ViolationView>, x: ViolationView)
    ensures
        risk_sum(v.push(x)) == risk_sum(v) + match x.severity {
            ViolationSeverity::Critical => 100nat,
            ViolationSeverity::High => 50nat,
            ViolationSeverity::Medium => 20nat,
            ViolationSeverity::Low => 5nat,
        },
        risk_score(v) == if risk_sum(v) < 1000 {
            risk_sum(v)
        } else {
            1000
        },
{
    assert(v.push(x).drop_last() =~= v);
}

/// A well-formed module carrying one of the known malicious markers (a
/// shell run with `-c`, `\0sh\0-c\0`; embedded bytecode evaluation,
/// `eval\0bytecode`; an interactive reverse shell, `bash -i >&`) gets a
/// critical finding, so its scan never passes.
pub proof fn known_markers_fail_the_scan(b: Seq<u8>, perms: Seq<Seq<char>>, h: Option<u32>)
    requires
        b.len() >= 8,
        b.subrange(0, 4) == wasm_magic(),
        contains_seq(b, seq![0u8, 115u8, 104u8, 0u8, 45u8, 99u8, 0u8]) || contains_seq(
            b,
            seq![101u8, 118u8, 97u8, 108u8, 0u8, 98u8, 121u8, 116u8, 101u8, 99u8, 111u8, 100u8, 101u8],
        ) || contains_seq(b, seq![98u8, 97u8, 115u8, 104u8, 32u8, 45u8, 105u8, 32u8, 62u8, 38u8]),
    ensures
        has_critical(scan_violations(b, perms, h)),
{
    assert(shell_injection_pattern() =~= seq![0u8, 115u8, 104u8, 0u8, 45u8, 99u8, 0u8]);
    assert(eval_bytecode_pattern() =~= seq![101u8, 118u8, 97u8, 108u8, 0u8, 98u8, 121u8, 116u8, 101u8, 99u8, 111u8, 100u8, 101u8]);
    assert(reverse_shell_pattern() =~= seq![98u8, 97u8, 115u8, 104u8, 32u8, 45u8, 105u8, 32u8, 62u8, 38u8]);
    malicious_patterns_fail_the_scan(b, perms, h);
}

proof fn lemma_permission_reported(perms: Seq<Seq<char>>, k: int, x: ViolationView)
    requires
        0 <= k < perms.len(),
        permission_violation(perms[k]).contains(x),
    ensures
        permission_violations(perms).contains(x),
    decreases perms.len(),
{
    let rest = perms.drop_last();
    let a = permission_violations(rest);
    let here = permission_violation(perms.last());
    assert(permission_violations(perms) == a + here);
    if k == perms.len() - 1 {
        let i = choose|i: int| 0 <= i < here.len() && here[i] == x;
        assert((a + here)[a.len() + i] == x);
    } else {
        assert(rest[k] == perms[k]);
        lemma_permission_reported(rest, k, x);
        let i = choose|i: int| 0 <= i < a.len() && a[i] == x;
        assert((a + here)[i] == x);
    }
}

/// A manifest asking for every permission (`*` or `all`) gets a medium
/// finding for its overly broad request, and one asking to write to the
/// file system (a permission naming both `filesystem` and `write`) gets a
/// medium finding asking whether that is needed.
pub proof fn broad_permissions_are_flagged(b: Seq<u8>, perms: Seq<Seq<char>>, h: Option<u32>, k: int)
    requires
        b.len() >= 8,
        b.subrange(0, 4) == wasm_magic(),
        0 <= k < perms.len(),
    ensures
        perms[k] == "*"@ || perms[k] == "all"@ ==> scan_violations(b, perms, h).contains(
            ViolationView {
                severity: ViolationSeverity::Medium,
                description: "Wildcard permission declared - overly broad access requested"@,
                line_hint: None,
            },
        ),
        contains_seq(perms[k], "filesystem"@) && contains_seq(perms[k], "write"@) ==> scan_violations(b, perms, h).contains(
            ViolationView {
                severity: ViolationSeverity::Medium,
                description: "Filesystem write permission requested - ensure this is necessary"@,
                line_hint: None,
            },
        ),
{
    reveal(declared_permission_violations);
    let s = structure_violations(b);
    let iv = import_violations(wasm_imports(b), perms);
    let pv = permission_violations(perms);
    let all = scan_violations(b, perms, h);
    assert(all == s + (iv + pv) + suspicious_pattern_violations(b, h));
    let pk = permission_violation(perms[k]);
    let w = violation(ViolationSeverity::Medium, wildcard_message());
    let f = violation(ViolationSeverity::Medium, fs_write_message());
    if perms[k] == "*"@ || perms[k] == "all"@ {
        assert(pk[0] == w);
        lemma_permission_reported(perms, k, w);
        let i = choose|i: int| 0 <= i < pv.len() && pv[i] == w;
        assert(all[s.len() + iv.len() + i] == w);
    }
    if contains_seq(perms[k], "filesystem"@) && contains_seq(perms[k], "write"@) {
        assert(pk[pk.len() - 1] == f);
        lemma_permission_reported(perms, k, f);
        let i = choose|i: int| 0 <= i < pv.len() && pv[i] == f;
        assert(all[s.len() + iv.len() + i] == f);
    }
}

/// Version order is a strict order: no version comes before itself, and
/// "comes before" is transitive and asymmetric.
pub proof fn version_order_is_strict(a: Seq<char>, b: Seq<char>, c: Seq<char>)
    ensures
        !version_lt(a, a),
        version_lt(a, b) && version_lt(b, c) ==> version_lt(a, c),
        version_lt(a, b) ==> !version_lt(b, a),
{
    let (x, y, z) = (version_components(a), version_components(b), version_components(c));
    lemma_seq_less_irreflexive(x);
    if seq_less(x, y) && seq_less(y, z) {
        lemma_seq_less_transitive(x, y, z);
    }
    if seq_less(x, y) && seq_less(y, x) {
        lemma_seq_less_transitive(x, y, x);
    }
}

/// Whether `a` comes before `b` in lexicographic order.
fn numbers_less(a: &[u64], b: &[u64]) -> (r: bool)
    ensures
        r == seq_less(a@, b@),
{
    let mut i: usize = 0;
    assert(a@.skip(0) =~= a@);
    assert(b@.skip(0) =~= b@);
    while i < a.len() && i < b.len()
        invariant
            i <= a@.len(),
            i <= b@.len(),
            seq_less(a@, b@) == seq_less(a@.skip(i as int), b@.skip(i as int)),
        decreases a@.len() - i,
    {
        if a[i] != b[i] {
            return a[i] < b[i];
        }
        assert(a@.skip(i as int).drop_first() =~= a@.skip(i + 1));
        assert(b@.skip(i as int).drop_first() =~= b@.skip(i + 1));
        i += 1;
    }
    i < b.len()
}

/// Whether version `a` comes before version `b`, comparing the numeric
/// components in order (a non-numeric component counts as 0).
pub fn version_less_than(a: &str, b: &str) -> (r: bool)
    ensures
        r == version_lt(a@, b@),
{
    let va = version_numbers(a);
    let vb = version_numbers(b);
    numbers_less(va.as_slice(), vb.as_slice())
}

/// `s` without leading and trailing whitespace.
pub fn trim_chars(s: &[char]) -> (r: Vec<char>)
    ensures
        r@ == trim(s@),
{
    let mut start: usize = 0;
    let ghost sv = s@;
    assert(sv.skip(0) =~= sv);
    while start < s.len() && is_whitespace(s[start])
        invariant
            start <= sv.len(),
            sv == s@,
            trim_start(sv) == trim_start(sv.skip(start as int)),
        decreases sv.len() - start,
    {
        assert(sv.skip(start as int).drop_first() =~= sv.skip(start + 1));
        start += 1;
    }
    assert(trim_start(sv) == sv.skip(start as int));
    let mut end: usize = s.len();
    let ghost t = sv.skip(start as int);
    while end > start && is_whitespace(s[end - 1])
        invariant
            start <= end <= sv.len(),
            sv == s@,
            t == sv.skip(start as int),
            trim_end(t) == trim_end(sv.subrange(start as int, end as int)),
        decreases end,
    {
        assert(sv.subrange(start as int, end as int).drop_last() =~= sv.subrange(start as int, end - 1));
        end -= 1;
    }
    let r = slice_to_vec_chars(s, start, end);
    assert(sv.subrange(start as int, sv.len() as int) =~= t);
    r
}

/// The characters from `start` to `end`.
fn slice_to_vec_chars(s: &[char], start: usize, end: usize) -> (r: Vec<char>)
    requires
        start <= end <= s@.len(),
    ensures
        r@ == s@.subrange(start as int, end as int),
{
    let mut r: Vec<char> = Vec::new();
    let mut i = start;
    while i < end
        invariant
            start <= i <= end <= s@.len(),
            r@ == s@.subrange(start as int, i as int),
        decreases end - i,
    {
        r.push(s[i]);
        assert(r@ =~= s@.subrange(start as int, i + 1));
        i += 1;
    }
    r
}

/// Whether the version lies in a `< X` or `<= X` range.
pub fn version_matches_range(version: &str, range: &str) -> (r: bool)
    ensures
        r == range_matches(version@, range@),
{
    let rc = chars_of(range);
    proof {
        reveal_strlit("< ");
        reveal_strlit("<= ");
    }
    if str_starts_with(range, "< ") {
        let bound = trim_chars(slice_to_vec_chars(rc.as_slice(), 2, rc.len()).as_slice());
        assert(rc@.subrange(2, rc@.len() as int) =~= range@.skip(2));
        let b = string_from_chars(bound.as_slice());
        return version_less_than(version, b.as_str());
    }
    if str_starts_with(range, "<= ") {
        let bound = trim_chars(slice_to_vec_chars(rc.as_slice(), 3, rc.len()).as_slice());
        assert(rc@.subrange(3, rc@.len() as int) =~= range@.skip(3));
        let b = string_from_chars(bound.as_slice());
        return version_less_than(version, b.as_str()) || str_eq(version, b.as_str());
    }
    false
}

/// Audits declared dependencies against the known-vulnerable list.
pub struct DependencyAuditor;

impl DependencyAuditor {
    pub fn new() -> (a: DependencyAuditor) {
        DependencyAuditor
    }

    /// Whether the version lies in the range.
    pub fn version_matches_range(&self, version: &str, range: &str) -> (r: bool)
        ensures
            r == range_matches(version@, range@),
    {
        version_matches_range(version, range)
    }

    /// The dependencies, given as (name, version), that match a known-vulnerable
    /// entry: the lower-cased name equals the entry's name and the version lies
    /// in its range. One finding per matching entry, in input order.
    pub fn audit_dependencies(&self, dependencies: &[(String, String)]) -> (r: Vec<DependencyVulnerability>)
        ensures
            r@.map_values(|v: DependencyVulnerability| v@) == audit_findings(
                dependencies@.map_values(|d: (String, String)| (d.0@, d.1@)),
            ),
    {
        let ghost ds = dependencies@.map_values(|d: (String, String)| (d.0@, d.1@));
        let mut findings: Vec<DependencyVulnerability> = Vec::new();
        let mut i: usize = 0;
        assert(findings@.map_values(|v: DependencyVulnerability| v@) =~= seq![]);
        while i < dependencies.len()
            invariant
                i <= dependencies@.len(),
                ds == dependencies@.map_values(|d: (String, String)| (d.0@, d.1@)),
                findings@.map_values(|v: DependencyVulnerability| v@) == audit_findings(ds.take(i as int)),
            decreases dependencies@.len() - i,
        {
            let name = dependencies[i].0.as_str();
            let version = dependencies[i].1.as_str();
            let lower = to_lowercase(name);
            let ghost before = findings@.map_values(|v: DependencyVulnerability| v@);
            assert(ds.take(i + 1).drop_last() =~= ds.take(i as int));
            assert(ds.take(i + 1).last() == (name@, version@));
            let mut k: usize = 0;
            while k < 3
                invariant
                    k <= 3,
                    lower@ == lowercase(name@),
                    before + dependency_findings_from(name@, version@, 0)
                        == findings@.map_values(|v: DependencyVulnerability| v@)
                            + dependency_findings_from(name@, version@, k as nat),
                decreases 3 - k,
            {
                let (vname, vrange, cve) = if k == 0 {
                    ("openssl", "< 3.0.7", "CVE-2022-3786")
                } else if k == 1 {
                    ("log4j", "< 2.17.1", "CVE-2021-44228")
                } else {
                    ("serde_json", "< 1.0.85", "CVE-2022-xxxx")
                };
                let ghost e = known_vulnerable()[k as int];
                assert(vname@ == e.0 && vrange@ == e.1 && cve@ == e.2);
                let ghost mid = findings@.map_values(|v: DependencyVulnerability| v@);
                if str_eq(lower.as_str(), vname) && version_matches_range(version, vrange) {
                    findings.push(DependencyVulnerability {
                        dependency: String::from_str(name),
                        version: String::from_str(version),
                        vulnerable_range: String::from_str(vrange),
                        cve_id: String::from_str(cve),
                        severity: ViolationSeverity::High,
                    });
                }
                assert(dependency_findings_from(name@, version@, k as nat) =~= (if lowercase(name@) == e.0 && range_matches(version@, e.1) {
                    seq![VulnerabilityView { dependency: name@, version: version@, vulnerable_range: e.1, cve_id: e.2, severity: ViolationSeverity::High }]
                } else {
                    seq![]
                }) + dependency_findings_from(name@, version@, (k + 1) as nat));
                assert(findings@.map_values(|v: DependencyVulnerability| v@) + dependency_findings_from(name@, version@, (k + 1) as nat)
                    =~= mid + dependency_findings_from(name@, version@, k as nat));
                k += 1;
            }
            assert(findings@.map_values(|v: DependencyVulnerability| v@) =~= before + dependency_findings_from(name@, version@, 0));
            i += 1;
        }
        assert(ds.take(dependencies@.len() as int) =~= ds);
        findings
    }
}

} // verus!
