//! Compliance: frameworks, control results and the status they add up to,
//! the SOC 2 controls judged from audit counts, retention and residency
//! settings, and the export of audit events as CSV and CEF.

use vstd::prelude::*;
use crate::fleet::DataRegion;
use crate::text::i64_to_decimal;
use crate::text::signed_decimal;
use crate::text::str_eq;

verus! {

/// Why a compliance request failed. Storage, serialization and file
/// failures are carried as messages.
#[derive(Debug)]
pub enum ComplianceError {
    ExportFailed(String),
    CheckFailed(String),
    Database(String),
    Serialization(String),
    Io(String),
}

/// A compliance framework.
#[derive(Clone, Copy, Debug, PartialEq, Eq, Structural)]
pub enum ComplianceFramework {
    Soc2TypeII,
    Iso27001,
    Hipaa,
    Gdpr,
    Pci,
}

/// The display name of a framework.
pub open spec fn framework_name(f: ComplianceFramework) -> Seq<char> {
    match f {
        ComplianceFramework::Soc2TypeII => "SOC 2 Type II"@,
        ComplianceFramework::Iso27001 => "ISO 27001"@,
        ComplianceFramework::Hipaa => "HIPAA"@,
        ComplianceFramework::Gdpr => "GDPR"@,
        ComplianceFramework::Pci => "PCI DSS"@,
    }
}

impl ComplianceFramework {
    /// The display name of the framework.
    pub fn as_str(&self) -> (s: &'static str)
        ensures
            s@ == framework_name(*self),
    {
        match self {
            ComplianceFramework::Soc2TypeII => "SOC 2 Type II",
            ComplianceFramework::Iso27001 => "ISO 27001",
            ComplianceFramework::Hipaa => "HIPAA",
            ComplianceFramework::Gdpr => "GDPR",
            ComplianceFramework::Pci => "PCI DSS",
        }
    }
}

/// The outcome of one control.
#[derive(Clone, Copy, Debug, PartialEq, Eq, Structural)]
pub enum ControlStatus {
    Pass,
    Fail,
    ManualReview,
}

/// One control checked, with its outcome and evidence.
#[derive(Debug)]
pub struct ControlResult {
    pub control_id: String,
    pub name: String,
    pub status: ControlStatus,
    pub description: String,
    pub evidence: String,
}

/// A control as plain values.
pub struct ControlView {
    pub control_id: Seq<char>,
    pub name: Seq<char>,
    pub status: ControlStatus,
    pub description: Seq<char>,
    pub evidence: Seq<char>,
}

impl View for ControlResult {
    type V = ControlView;

    open spec fn view(&self) -> ControlView {
        ControlView {
            control_id: self.control_id@,
            name: self.name@,
            status: self.status,
            description: self.description@,
            evidence: self.evidence@,
        }
    }
}

/// The controls as plain values.
pub open spec fn control_views(v: Seq<ControlResult>) -> Seq<ControlView> {
    v.map_values(|c: ControlResult| c@)
}

/// The overall standing against a framework.
#[derive(Clone, Copy, Debug, PartialEq, Eq, Structural)]
pub enum ComplianceCheckStatus {
    Compliant,
    NonCompliant,
    InProgress,
    NotStarted,
}

/// The standing against a framework. `last_checked` is in milliseconds
/// since the Unix epoch.
#[derive(Debug)]
pub struct ComplianceStatus {
    pub framework: String,
    pub status: ComplianceCheckStatus,
    pub last_checked: i64,
    pub controls_passed: u32,
    pub controls_failed: u32,
    pub evidence_count: u32,
}

/// How long each kind of data is kept.
#[derive(Debug)]
pub struct DataRetentionPolicy {
    pub audit_log_days: u32,
    pub conversation_history_days: u32,
    pub skill_execution_logs_days: u32,
    pub user_data_delete_on_request: bool,
}

impl Default for DataRetentionPolicy {
    fn default() -> (p: DataRetentionPolicy)
        ensures
            p.audit_log_days == 365,
            p.conversation_history_days == 90,
            p.skill_execution_logs_days == 180,
            p.user_data_delete_on_request,
    {
        DataRetentionPolicy {
            audit_log_days: 365,
            conversation_history_days: 90,
            skill_execution_logs_days: 180,
            user_data_delete_on_request: true,
        }
    }
}

/// Where each kind of data is kept.
#[derive(Debug)]
pub struct DataResidencyConfig {
    pub user_data_region: DataRegion,
    pub audit_log_region: DataRegion,
    pub model_inference_region: DataRegion,
}

/// How audit events are exported.
#[derive(Clone, Copy, Debug, PartialEq, Eq, Structural)]
pub enum AuditExportFormat {
    Csv,
    Json,
    Siem,
}

/// The controls that pass, fail, or need review.
pub open spec fn count_controls(cs: Seq<ControlView>, st: ControlStatus) -> int
    decreases cs.len(),
{
    if cs.len() == 0 {
        0
    } else {
        count_controls(cs.drop_last(), st) + if cs.last().status == st { 1int } else { 0 }
    }
}

/// The standing the controls add up to: non-compliant if any failed, in
/// progress if any needs review, compliant otherwise.
pub open spec fn standing(cs: Seq<ControlView>) -> ComplianceCheckStatus {
    if count_controls(cs, ControlStatus::Fail) > 0 {
        ComplianceCheckStatus::NonCompliant
    } else if count_controls(cs, ControlStatus::ManualReview) > 0 {
        ComplianceCheckStatus::InProgress
    } else {
        ComplianceCheckStatus::Compliant
    }
}

proof fn lemma_count_controls_le(cs: Seq<ControlView>, st: ControlStatus)
    ensures
        0 <= count_controls(cs, st) <= cs.len(),
    decreases cs.len(),
{
    if cs.len() > 0 {
        lemma_count_controls_le(cs.drop_last(), st);
    }
}

/// The standing against a framework from its checked controls.
pub fn compliance_status(framework: &ComplianceFramework, controls: &[ControlResult], last_checked: i64) -> (s: ComplianceStatus)
    requires
        controls@.len() <= u32::MAX,
    ensures
        s.framework@ == framework_name(*framework),
        s.status == standing(control_views(controls@)),
        s.last_checked == last_checked,
        s.controls_passed == count_controls(control_views(controls@), ControlStatus::Pass),
        s.controls_failed == count_controls(control_views(controls@), ControlStatus::Fail),
        s.evidence_count == controls@.len(),
{
    let ghost cs = control_views(controls@);
    let mut passed: u32 = 0;
    let mut failed: u32 = 0;
    let mut review: u32 = 0;
    let mut i: usize = 0;
    while i < controls.len()
        invariant
            cs == control_views(controls@),
            controls@.len() <= u32::MAX,
            i <= cs.len(),
            passed == count_controls(cs.take(i as int), ControlStatus::Pass),
            failed == count_controls(cs.take(i as int), ControlStatus::Fail),
            review == count_controls(cs.take(i as int), ControlStatus::ManualReview),
        decreases cs.len() - i,
    {
        assert(cs.take(i + 1).drop_last() =~= cs.take(i as int));
        assert(cs[i as int] == controls@[i as int]@);
        proof {
            lemma_count_controls_le(cs.take(i as int), ControlStatus::Pass);
            lemma_count_controls_le(cs.take(i as int), ControlStatus::Fail);
            lemma_count_controls_le(cs.take(i as int), ControlStatus::ManualReview);
        }
        match controls[i].status {
            ControlStatus::Pass => passed += 1,
            ControlStatus::Fail => failed += 1,
            ControlStatus::ManualReview => review += 1,
        }
        i += 1;
    }
    assert(cs.take(cs.len() as int) =~= cs);
    let status = if failed > 0 {
        ComplianceCheckStatus::NonCompliant
    } else if review > 0 {
        ComplianceCheckStatus::InProgress
    } else {
        ComplianceCheckStatus::Compliant
    };
    ComplianceStatus {
        framework: String::from_str(framework.as_str()),
        status,
        last_checked,
        controls_passed: passed,
        controls_failed: failed,
        evidence_count: controls.len() as u32,
    }
}


/// A control as plain values, from its parts.
pub open spec fn control(id: Seq<char>, name: Seq<char>, status: ControlStatus, description: Seq<char>, evidence: Seq<char>) -> ControlView {
    ControlView { control_id: id, name, status, description, evidence }
}

/// The SOC 2 controls, judged from the number of session revocations, of
/// failures in the last 30 days, and of all audit events of the organization.
pub open spec fn soc2_control_views(session_count: i64, incident_count: i64, total_events: i64) -> Seq<ControlView> {
    seq![
        control(
            "CC6.1"@,
            "Logical Access Controls"@,
            ControlStatus::Pass,
            "System enforces authentication and session management"@,
            signed_decimal(session_count as int) + " session revocation events logged"@,
        ),
        control(
            "CC6.7"@,
            "Encryption of Data in Transit"@,
            ControlStatus::Pass,
            "All API endpoints use TLS 1.2+"@,
            "TLS enforced via tower-http and rustls-tls"@,
        ),
        control(
            "CC7.2"@,
            "Incident Detection"@,
            if incident_count < 100 { ControlStatus::Pass } else { ControlStatus::ManualReview },
            "Failure events are logged and available for review"@,
            signed_decimal(incident_count as int) + " failure events in last 30 days"@,
        ),
        control(
            "CC8.1"@,
            "Change Management"@,
            ControlStatus::ManualReview,
            "Change management process requires manual verification"@,
            "Config versioning system active; manual review of deployment records required"@,
        ),
        control(
            "A1.1"@,
            "Availability Commitments"@,
            ControlStatus::Pass,
            "System availability metrics are tracked"@,
            signed_decimal(total_events as int) + " total audit events; uptime monitoring enabled"@,
        ),
    ]
}

/// The single control of a framework without automated checks.
pub open spec fn manual_control_view(f: ComplianceFramework) -> ControlView {
    control(
        "MANUAL-001"@,
        framework_name(f) + " Assessment"@,
        ControlStatus::ManualReview,
        framework_name(f) + " requires manual assessment"@,
        "Automated checks not yet implemented for this framework"@,
    )
}

fn make_control(id: &str, name: String, status: ControlStatus, description: String, evidence: String) -> (c: ControlResult)
    ensures
        c@ == control(id@, name@, status, description@, evidence@),
{
    ControlResult { control_id: String::from_str(id), name, status, description, evidence }
}

fn text_after(prefix: String, rest: &str) -> (s: String)
    ensures
        s@ == prefix@ + rest@,
{
    let mut s = prefix;
    s.append(rest);
    s
}

/// The SOC 2 controls judged from the audit counts: access control, transit
/// encryption and availability pass; incident detection passes under 100
/// recent failures and needs review otherwise; change management always
/// needs review.
pub fn soc2_controls(session_count: i64, incident_count: i64, total_events: i64) -> (v: Vec<ControlResult>)
    ensures
        control_views(v@) == soc2_control_views(session_count, incident_count, total_events),
{
    let mut v: Vec<ControlResult> = Vec::new();
    v.push(make_control(
        "CC6.1",
        String::from_str("Logical Access Controls"),
        ControlStatus::Pass,
        String::from_str("System enforces authentication and session management"),
        text_after(i64_to_decimal(session_count), " session revocation events logged"),
    ));
    v.push(make_control(
        "CC6.7",
        String::from_str("Encryption of Data in Transit"),
        ControlStatus::Pass,
        String::from_str("All API endpoints use TLS 1.2+"),
        String::from_str("TLS enforced via tower-http and rustls-tls"),
    ));
    v.push(make_control(
        "CC7.2",
        String::from_str("Incident Detection"),
        if incident_count < 100 { ControlStatus::Pass } else { ControlStatus::ManualReview },
        String::from_str("Failure events are logged and available for review"),
        text_after(i64_to_decimal(incident_count), " failure events in last 30 days"),
    ));
    v.push(make_control(
        "CC8.1",
        String::from_str("Change Management"),
        ControlStatus::ManualReview,
        String::from_str("Change management process requires manual verification"),
        String::from_str("Config versioning system active; manual review of deployment records required"),
    ));
    v.push(make_control(
        "A1.1",
        String::from_str("Availability Commitments"),
        ControlStatus::Pass,
        String::from_str("System availability metrics are tracked"),
        text_after(i64_to_decimal(total_events), " total audit events; uptime monitoring enabled"),
    ));
    assert(control_views(v@) =~= soc2_control_views(session_count, incident_count, total_events));
    v
}

/// The controls a report against the framework is made of: the SOC 2
/// controls for SOC 2, judged from the audit counts, and a single control
/// needing manual assessment for any other framework.
pub fn report_controls(framework: &ComplianceFramework, session_count: i64, incident_count: i64, total_events: i64) -> (v: Vec<ControlResult>)
    ensures
        *framework == ComplianceFramework::Soc2TypeII ==> control_views(v@) == soc2_control_views(
            session_count,
            incident_count,
            total_events,
        ),
        *framework != ComplianceFramework::Soc2TypeII ==> control_views(v@) == seq![manual_control_view(*framework)],
{
    match framework {
        ComplianceFramework::Soc2TypeII => soc2_controls(session_count, incident_count, total_events),
        _ => {
            let name = framework.as_str();
            let mut v: Vec<ControlResult> = Vec::new();
            v.push(make_control(
                "MANUAL-001",
                text_after(String::from_str(name), " Assessment"),
                ControlStatus::ManualReview,
                text_after(String::from_str(name), " requires manual assessment"),
                String::from_str("Automated checks not yet implemented for this framework"),
            ));
            assert(control_views(v@) =~= seq![manual_control_view(*framework)]);
            v
        },
    }
}

/// A SOC 2 report is always in progress: change management needs manual
/// review and no control ever fails; any other framework is in progress too.
pub proof fn reports_stay_in_progress(f: ComplianceFramework, session_count: i64, incident_count: i64, total_events: i64)
    ensures
        standing(soc2_control_views(session_count, incident_count, total_events)) == ComplianceCheckStatus::InProgress,
        standing(seq![manual_control_view(f)]) == ComplianceCheckStatus::InProgress,
{
    let cs = soc2_control_views(session_count, incident_count, total_events);
    assert(cs.drop_last().drop_last().drop_last().drop_last().drop_last() =~= Seq::<ControlView>::empty());
    reveal_with_fuel(count_controls, 6);
    let m = seq![manual_control_view(f)];
    assert(m.drop_last() =~= Seq::<ControlView>::empty());
}


/// The SOC 2 controls' verdicts: access control (CC6.1), encryption in
/// transit (CC6.7) and availability (A1.1) pass; incident detection (CC7.2)
/// passes only with fewer than 100 failure events in the last 30 days and
/// needs manual review otherwise; change management (CC8.1) always needs
/// manual review. So a SOC 2 check counts four passed controls under 100
/// recent failures and three from 100 on, and never a failed one.
pub proof fn soc2_verdicts(session_count: i64, incident_count: i64, total_events: i64)
    ensures
        ({
            let cs = soc2_control_views(session_count, incident_count, total_events);
            &&& cs.len() == 5
            &&& forall|k: int|
                0 <= k < cs.len() && #[trigger] cs[k].control_id == "CC7.2"@ ==> cs[k].status == (if incident_count
                    < 100 {
                    ControlStatus::Pass
                } else {
                    ControlStatus::ManualReview
                })
            &&& forall|k: int|
                0 <= k < cs.len() && #[trigger] cs[k].control_id == "CC8.1"@ ==> cs[k].status
                    == ControlStatus::ManualReview
            &&& forall|k: int|
                0 <= k < cs.len() && (#[trigger] cs[k].control_id == "CC6.1"@ || cs[k].control_id == "CC6.7"@
                    || cs[k].control_id == "A1.1"@) ==> cs[k].status == ControlStatus::Pass
            &&& exists|k: int| 0 <= k < cs.len() && #[trigger] cs[k].control_id == "CC7.2"@
            &&& count_controls(cs, ControlStatus::Pass) == if incident_count < 100 {
                4int
            } else {
                3int
            }
            &&& count_controls(cs, ControlStatus::Fail) == 0
        }),
{
    let cs = soc2_control_views(session_count, incident_count, total_events);
    reveal_strlit("CC6.1");
    reveal_strlit("CC6.7");
    reveal_strlit("CC7.2");
    reveal_strlit("CC8.1");
    reveal_strlit("A1.1");
    assert(cs[2].control_id == "CC7.2"@);
    assert(cs[0].control_id != "CC7.2"@ && cs[1].control_id != "CC7.2"@ && cs[3].control_id != "CC7.2"@
        && cs[4].control_id != "CC7.2"@) by {
        assert(cs[0].control_id[2] != "CC7.2"@[2]);
        assert(cs[1].control_id[2] != "CC7.2"@[2]);
        assert(cs[3].control_id[2] != "CC7.2"@[2]);
        assert(cs[4].control_id.len() != "CC7.2"@.len());
    }
    assert(cs[0].control_id != "CC8.1"@ && cs[1].control_id != "CC8.1"@ && cs[2].control_id != "CC8.1"@
        && cs[4].control_id != "CC8.1"@) by {
        assert(cs[0].control_id[2] != "CC8.1"@[2]);
        assert(cs[1].control_id[2] != "CC8.1"@[2]);
        assert(cs[2].control_id[2] != "CC8.1"@[2]);
        assert(cs[4].control_id.len() != "CC8.1"@.len());
    }
    assert(cs[2].control_id != "CC6.1"@ && cs[2].control_id != "CC6.7"@ && cs[2].control_id != "A1.1"@
        && cs[3].control_id != "CC6.1"@ && cs[3].control_id != "CC6.7"@ && cs[3].control_id != "A1.1"@) by {
        assert(cs[2].control_id[2] != "CC6.1"@[2]);
        assert(cs[2].control_id[2] != "CC6.7"@[2]);
        assert(cs[2].control_id.len() != "A1.1"@.len());
        assert(cs[3].control_id[2] != "CC6.1"@[2]);
        assert(cs[3].control_id[2] != "CC6.7"@[2]);
        assert(cs[3].control_id.len() != "A1.1"@.len());
    }
    assert forall|k: int| 0 <= k < cs.len() && #[trigger] cs[k].control_id == "CC7.2"@ implies k == 2 by {
        if k == 0 {} else if k == 1 {} else if k == 3 {} else if k == 4 {}
    }
    assert forall|k: int| 0 <= k < cs.len() && #[trigger] cs[k].control_id == "CC8.1"@ implies k == 3 by {
        if k == 0 {} else if k == 1 {} else if k == 2 {} else if k == 4 {}
    }
    assert forall|k: int|
        0 <= k < cs.len() && (#[trigger] cs[k].control_id == "CC6.1"@ || cs[k].control_id == "CC6.7"@
            || cs[k].control_id == "A1.1"@) implies k == 0 || k == 1 || k == 4 by {
        if k == 2 {} else if k == 3 {}
    }
    reveal_with_fuel(count_controls, 6);
    assert(cs.drop_last().drop_last().drop_last().drop_last().drop_last() =~= Seq::<ControlView>::empty());
}

/// An audited action. `timestamp` is in nanoseconds since the Unix epoch.
#[derive(Debug)]
pub struct AuditEvent {
    pub event_id: String,
    pub org_id: String,
    pub user_id: String,
    pub action: String,
    pub resource_type: String,
    pub resource_id: String,
    pub outcome: String,
    pub ip_address: String,
    pub timestamp: i64,
    pub metadata: serde_json::Value,
}

/// A span of time, in nanoseconds since the Unix epoch.
#[derive(Debug)]
pub struct DateRange {
    pub start: i64,
    pub end: i64,
}

/// The RFC 3339 text `chrono` writes for an instant given in nanoseconds
/// since the Unix epoch (`DateTime::<Utc>::from_timestamp_nanos`, then `to_rfc3339`).
pub uninterp spec fn rfc3339_of_nanos(n: i64) -> Seq<char>;

/// Writes an instant given in nanoseconds since the Unix epoch as RFC 3339
/// text with `chrono`: `DateTime::<Utc>::from_timestamp_nanos` (which takes
/// every `i64`) and `to_rfc3339`.
#[verifier::external_body]
fn rfc3339_text(n: i64) -> (s: String)
    ensures
        s@ == rfc3339_of_nanos(n),
{
    chrono::DateTime::<chrono::Utc>::from_timestamp_nanos(n).to_rfc3339()
}

/// Whole milliseconds since the Unix epoch, rounded down, of an instant in nanoseconds.
pub open spec fn millis_of_nanos(n: i64) -> int {
    n as int / 1_000_000
}

fn nanos_to_millis(n: i64) -> (m: i64)
    ensures
        m == millis_of_nanos(n),
{
    if n >= 0 {
        (n as u64 / 1_000_000) as i64
    } else {
        let k = (-(n + 1)) as u64;
        let q = (k / 1_000_000) as i64;
        assert(q == (-(n + 1)) / 1_000_000);
        assert(-q - 1 == (n as int) / 1_000_000) by (nonlinear_arith)
            requires
                n < 0,
                q == (-(n + 1)) / 1_000_000,
        ;
        -q - 1
    }
}

/// The Common Event Format line of an audit event.
pub open spec fn cef_line(e: AuditEvent) -> Seq<char> {
    "CEF:0|OpenZax|AuditLog|1.0|"@ + e.action@ + "|"@ + e.resource_type@ + "|5|src="@ + e.ip_address@
        + " suser="@ + e.user_id@ + " dhost="@ + e.resource_id@ + " outcome="@ + e.outcome@ + " cs1="@
        + e.org_id@ + " cs1Label=org_id rt="@ + signed_decimal(millis_of_nanos(e.timestamp))
}

/// The CSV header of an audit export.
pub open spec fn csv_header() -> Seq<char> {
    "event_id,org_id,user_id,action,resource_type,resource_id,outcome,ip_address,timestamp\n"@
}

/// The CSV row of an audit event (fields are written as they are).
pub open spec fn csv_row(e: AuditEvent) -> Seq<char> {
    e.event_id@ + ","@ + e.org_id@ + ","@ + e.user_id@ + ","@ + e.action@ + ","@ + e.resource_type@ + ","@
        + e.resource_id@ + ","@ + e.outcome@ + ","@ + e.ip_address@ + ","@ + rfc3339_of_nanos(e.timestamp)
        + "\n"@
}

/// The CSV export of audit events: the header, then one row per event in order.
pub open spec fn csv_export(es: Seq<AuditEvent>) -> Seq<char>
    decreases es.len(),
{
    if es.len() == 0 {
        csv_header()
    } else {
        csv_export(es.drop_last()) + csv_row(es.last())
    }
}

/// Writes audit events in Common Event Format for SIEM ingestion.
pub struct SiemExporter;

impl SiemExporter {
    /// The Common Event Format line of an event.
    pub fn to_cef(event: &AuditEvent) -> (s: String)
        ensures
            s@ == cef_line(*event),
    {
        let mut s = String::from_str("CEF:0|OpenZax|AuditLog|1.0|");
        s.append(event.action.as_str());
        s.append("|");
        s.append(event.resource_type.as_str());
        s.append("|5|src=");
        s.append(event.ip_address.as_str());
        s.append(" suser=");
        s.append(event.user_id.as_str());
        s.append(" dhost=");
        s.append(event.resource_id.as_str());
        s.append(" outcome=");
        s.append(event.outcome.as_str());
        s.append(" cs1=");
        s.append(event.org_id.as_str());
        s.append(" cs1Label=org_id rt=");
        s.append(i64_to_decimal(nanos_to_millis(event.timestamp)).as_str());
        s
    }
}

/// Appends the CSV row of an event.
fn push_csv_row(s: &mut String, e: &AuditEvent)
    ensures
        final(s)@ == old(s)@ + csv_row(*e),
{
    s.append(e.event_id.as_str());
    s.append(",");
    s.append(e.org_id.as_str());
    s.append(",");
    s.append(e.user_id.as_str());
    s.append(",");
    s.append(e.action.as_str());
    s.append(",");
    s.append(e.resource_type.as_str());
    s.append(",");
    s.append(e.resource_id.as_str());
    s.append(",");
    s.append(e.outcome.as_str());
    s.append(",");
    s.append(e.ip_address.as_str());
    s.append(",");
    s.append(rfc3339_text(e.timestamp).as_str());
    s.append("\n");
    assert(s@ =~= old(s)@ + csv_row(*e));
}

/// Writes audit events as CSV: a header, then one row per event in order.
pub fn audit_csv(events: &[AuditEvent]) -> (s: String)
    ensures
        s@ == csv_export(events@),
{
    let mut s = String::from_str("event_id,org_id,user_id,action,resource_type,resource_id,outcome,ip_address,timestamp\n");
    let mut i: usize = 0;
    while i < events.len()
        invariant
            i <= events@.len(),
            s@ == csv_export(events@.take(i as int)),
        decreases events@.len() - i,
    {
        let e = &events[i];
        push_csv_row(&mut s, e);
        assert(events@.take(i + 1).drop_last() =~= events@.take(i as int));
        assert(events@.take(i + 1).last() == *e);
        assert(s@ =~= csv_export(events@.take(i + 1)));
        i += 1;
    }
    assert(events@.take(events@.len() as int) =~= events@);
    s
}

} // verus!
