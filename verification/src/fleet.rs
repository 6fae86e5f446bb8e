//! Fleet management: endpoint states and their stored names, fleet policies,
//! the health report over the endpoints of an organization, and endpoint
//! filters.

use vstd::prelude::*;
use crate::agent::opt_text;
use crate::text::str_eq;

verus! {

/// Why a fleet request was refused. Storage failures are carried as messages.
#[derive(Debug)]
pub enum FleetError {
    EndpointNotFound(String),
    PolicyViolation(String),
    Database(String),
    Serialization(String),
}

/// Where data may be kept.
#[derive(Clone, Copy, Debug, PartialEq, Eq, Structural)]
pub enum DataRegion {
    Us,
    Eu,
    Ap,
    Any,
}

/// The rules applied to an organization's agents. Permission overrides are
/// a list of skill names, each with its permissions.
#[derive(Debug)]
pub struct FleetPolicy {
    pub required_skills: Vec<String>,
    pub blocked_skills: Vec<String>,
    pub permission_overrides: Vec<(String, Vec<String>)>,
    pub max_skills_per_agent: u32,
    pub allowed_model_providers: Vec<String>,
    pub data_residency: DataRegion,
}

impl Default for FleetPolicy {
    fn default() -> (p: FleetPolicy)
        ensures
            p.required_skills@.len() == 0,
            p.blocked_skills@.len() == 0,
            p.permission_overrides@.len() == 0,
            p.max_skills_per_agent == 100,
            p.allowed_model_providers@.len() == 0,
            p.data_residency == DataRegion::Any,
    {
        FleetPolicy {
            required_skills: Vec::new(),
            blocked_skills: Vec::new(),
            permission_overrides: Vec::new(),
            max_skills_per_agent: 100,
            allowed_model_providers: Vec::new(),
            data_residency: DataRegion::Any,
        }
    }
}

/// Whether an endpoint answers.
#[derive(Clone, Copy, Debug, PartialEq, Eq, Structural)]
pub enum EndpointStatus {
    Online,
    Offline,
    Degraded,
}

/// The stored name of an endpoint state.
pub open spec fn endpoint_status_name(s: EndpointStatus) -> Seq<char> {
    match s {
        EndpointStatus::Online => "online"@,
        EndpointStatus::Offline => "offline"@,
        EndpointStatus::Degraded => "degraded"@,
    }
}

/// The state read from its stored name; anything unknown reads as offline.
pub open spec fn endpoint_status_named(s: Seq<char>) -> EndpointStatus {
    if s == "online"@ {
        EndpointStatus::Online
    } else if s == "degraded"@ {
        EndpointStatus::Degraded
    } else {
        EndpointStatus::Offline
    }
}

impl EndpointStatus {
    /// The stored name of the state.
    pub fn as_str(&self) -> (s: &'static str)
        ensures
            s@ == endpoint_status_name(*self),
    {
        match self {
            EndpointStatus::Online => "online",
            EndpointStatus::Offline => "offline",
            EndpointStatus::Degraded => "degraded",
        }
    }

    /// The state read from its stored name; anything unknown reads as offline.
    pub fn from_str(s: &str) -> (r: EndpointStatus)
        ensures
            r == endpoint_status_named(s@),
    {
        if str_eq(s, "online") {
            EndpointStatus::Online
        } else if str_eq(s, "degraded") {
            EndpointStatus::Degraded
        } else {
            EndpointStatus::Offline
        }
    }
}

/// Reading back the stored name of a state gives the state.
pub proof fn endpoint_status_roundtrip(s: EndpointStatus)
    ensures
        endpoint_status_named(endpoint_status_name(s)) == s,
{
    reveal_strlit("online");
    reveal_strlit("offline");
    reveal_strlit("degraded");
    assert("online"@.len() == 6);
    assert("offline"@.len() == 7);
    assert("degraded"@.len() == 8);
}

/// A managed agent installation. Identifiers are UUIDs as numbers;
/// `last_seen` is in milliseconds since the Unix epoch.
#[derive(Debug)]
pub struct AgentEndpoint {
    pub id: u128,
    pub org_id: u128,
    pub hostname: String,
    pub ip_address: String,
    pub os: String,
    pub version: String,
    pub status: EndpointStatus,
    pub last_seen: i64,
    pub installed_skills: Vec<String>,
    pub active_policies: Vec<String>,
}

/// Counts over an organization's endpoints.
#[derive(Debug)]
pub struct FleetHealthReport {
    pub total_endpoints: u32,
    pub online: u32,
    pub offline: u32,
    pub degraded: u32,
    pub outdated_version: u32,
    pub policy_violations: u32,
    pub recent_incidents: Vec<String>,
}

/// The endpoints counted under a stored state name.
pub open spec fn count_status(rows: Seq<(Seq<char>, Seq<char>)>, name: Seq<char>) -> int
    decreases rows.len(),
{
    if rows.len() == 0 {
        0
    } else {
        count_status(rows.drop_last(), name) + if rows.last().0 == name { 1int } else { 0 }
    }
}

/// The endpoints whose version is not `current`.
pub open spec fn count_outdated(rows: Seq<(Seq<char>, Seq<char>)>, current: Seq<char>) -> int
    decreases rows.len(),
{
    if rows.len() == 0 {
        0
    } else {
        count_outdated(rows.drop_last(), current) + if rows.last().1 != current { 1int } else { 0 }
    }
}

/// The rows of stored state name and version as plain values.
pub open spec fn row_views(rows: Seq<(String, String)>) -> Seq<(Seq<char>, Seq<char>)> {
    rows.map_values(|r: (String, String)| (r.0@, r.1@))
}

/// The health report of an organization's endpoints, from their stored
/// state name and version: a state other than online, offline or degraded
/// counts as offline, and a version other than `current_version` as outdated.
pub fn health_report(rows: &[(String, String)], current_version: &str, recent_incidents: Vec<String>) -> (r: FleetHealthReport)
    requires
        rows@.len() <= u32::MAX,
    ensures
        ({
            let rs = row_views(rows@);
            &&& r.total_endpoints == rs.len()
            &&& r.online == count_status(rs, "online"@)
            &&& r.degraded == count_status(rs, "degraded"@)
            &&& r.offline == rs.len() - count_status(rs, "online"@) - count_status(rs, "degraded"@)
            &&& r.outdated_version == count_outdated(rs, current_version@)
            &&& r.policy_violations == 0
            &&& r.recent_incidents@ == recent_incidents@
        }),
{
    let ghost rs = row_views(rows@);
    let mut online: u32 = 0;
    let mut degraded: u32 = 0;
    let mut outdated: u32 = 0;
    let mut i: usize = 0;
    while i < rows.len()
        invariant
            rs == row_views(rows@),
            rows@.len() <= u32::MAX,
            i <= rs.len(),
            online == count_status(rs.take(i as int), "online"@),
            degraded == count_status(rs.take(i as int), "degraded"@),
            outdated == count_outdated(rs.take(i as int), current_version@),
            online + degraded <= i,
            outdated <= i,
        decreases rs.len() - i,
    {
        assert(rs.take(i + 1).drop_last() =~= rs.take(i as int));
        assert(rs[i as int] == (rows@[i as int].0@, rows@[i as int].1@));
        let is_online = str_eq(rows[i].0.as_str(), "online");
        let is_degraded = str_eq(rows[i].0.as_str(), "degraded");
        if is_online {
            online += 1;
        } else if is_degraded {
            degraded += 1;
        }
        proof {
            reveal_strlit("online");
            reveal_strlit("degraded");
            assert("online"@.len() == 6);
            assert("degraded"@.len() == 8);
        }
        if !str_eq(rows[i].1.as_str(), current_version) {
            outdated += 1;
        }
        i += 1;
    }
    assert(rs.take(rs.len() as int) =~= rs);
    FleetHealthReport {
        total_endpoints: rows.len() as u32,
        online,
        offline: rows.len() as u32 - online - degraded,
        degraded,
        outdated_version: outdated,
        policy_violations: 0,
        recent_incidents,
    }
}

/// Which endpoints to list: each part given must match.
#[derive(Debug)]
pub struct EndpointFilter {
    pub status: Option<EndpointStatus>,
    pub version: Option<String>,
    pub skill: Option<String>,
}


/// The endpoint passes the filter: its state, version and installed skills
/// agree with each part that is given.
pub open spec fn endpoint_passes(e: AgentEndpoint, f: EndpointFilter) -> bool {
    &&& f.status matches Some(st) ==> e.status == st
    &&& f.version matches Some(v) ==> e.version@ == v@
    &&& f.skill matches Some(k) ==> e.installed_skills@.map_values(|s: String| s@).contains(k@)
}

/// The endpoints that pass the filter, in order.
pub open spec fn filtered(es: Seq<AgentEndpoint>, f: EndpointFilter) -> Seq<AgentEndpoint>
    decreases es.len(),
{
    if es.len() == 0 {
        Seq::empty()
    } else if endpoint_passes(es[0], f) {
        seq![es[0]] + filtered(es.drop_first(), f)
    } else {
        filtered(es.drop_first(), f)
    }
}

/// Whether one of the strings is `k`.
fn has_string(v: &Vec<String>, k: &str) -> (b: bool)
    ensures
        b == v@.map_values(|s: String| s@).contains(k@),
{
    let ghost vs = v@.map_values(|s: String| s@);
    let mut i: usize = 0;
    while i < v.len()
        invariant
            vs == v@.map_values(|s: String| s@),
            i <= vs.len(),
            forall|j: int| 0 <= j < i ==> vs[j] != k@,
        decreases vs.len() - i,
    {
        assert(vs[i as int] == v@[i as int]@);
        if str_eq(v[i].as_str(), k) {
            return true;
        }
        i += 1;
    }
    false
}

/// Whether the endpoint passes the filter.
fn passes(e: &AgentEndpoint, f: &EndpointFilter) -> (b: bool)
    ensures
        b == endpoint_passes(*e, *f),
{
    let status_ok = match f.status {
        Some(st) => e.status == st,
        None => true,
    };
    let version_ok = match &f.version {
        Some(v) => str_eq(e.version.as_str(), v.as_str()),
        None => true,
    };
    let skill_ok = match &f.skill {
        Some(k) => has_string(&e.installed_skills, k.as_str()),
        None => true,
    };
    status_ok && version_ok && skill_ok
}

/// The endpoints that pass the filter, in order; with no filter, all of them.
pub fn filter_endpoints(endpoints: Vec<AgentEndpoint>, filter: Option<EndpointFilter>) -> (r: Vec<AgentEndpoint>)
    ensures
        match filter {
            Some(f) => r@ == filtered(endpoints@, f),
            None => r@ == endpoints@,
        },
{
    match filter {
        None => endpoints,
        Some(f) => {
            let ghost all = endpoints@;
            let mut rest = endpoints;
            let mut out: Vec<AgentEndpoint> = Vec::new();
            let ghost mut done: int = 0;
            while rest.len() > 0
                invariant
                    0 <= done <= all.len(),
                    rest@ == all.subrange(done, all.len() as int),
                    filtered(all, f) == out@ + filtered(all.subrange(done, all.len() as int), f),
                decreases rest@.len(),
            {
                let ghost before = rest@;
                let e = rest.remove(0);
                proof {
                    assert(before[0] == e);
                    assert(before.drop_first() =~= rest@);
                    assert(rest@ =~= all.subrange(done + 1, all.len() as int));
                }
                if passes(&e, &f) {
                    let ghost o = out@;
                    out.push(e);
                    assert(o + (seq![e] + filtered(before.drop_first(), f)) =~= out@ + filtered(before.drop_first(), f));
                }
                proof {
                    done = done + 1;
                }
            }
            assert(out@ + filtered(Seq::<AgentEndpoint>::empty(), f) =~= out@);
            assert(all.subrange(done, all.len() as int) =~= Seq::<AgentEndpoint>::empty());
            out
        },
    }
}


/// What `serde_json::from_str` reads from a text, taken as an object: `None`
/// when the text is not JSON, `Some(None)` when it is JSON but not an object,
/// else the object's fields in the map's order, each with its value written
/// back as JSON text.
pub uninterp spec fn json_object(text: Seq<char>) -> Option<Option<Seq<(Seq<char>, Seq<char>)>>>;

/// Whether `serde_json` reads two JSON texts as equal values (false when
/// either is not JSON).
pub uninterp spec fn json_same(a: Seq<char>, b: Seq<char>) -> bool;

/// How `Debug` writes a string: quoted, with its special characters escaped.
pub uninterp spec fn debug_text(s: Seq<char>) -> Seq<char>;

/// The texts of fields given as name and value.
pub open spec fn field_views(fs: Seq<(String, String)>) -> Seq<(Seq<char>, Seq<char>)> {
    fs.map_values(|f: (String, String)| (f.0@, f.1@))
}

/// Reads a JSON text with `serde_json::from_str` into a `serde_json::Value`
/// and, when it is an object, lists its fields with `Value::to_string` of
/// each value; the error becomes its message.
#[verifier::external_body]
fn object_fields(text: &str) -> (r: Result<Option<Vec<(String, String)>>, String>)
    ensures
        match r {
            Err(_) => json_object(text@).is_none(),
            Ok(None) => json_object(text@) == Some(None::<Seq<(Seq<char>, Seq<char>)>>),
            Ok(Some(fs)) => json_object(text@) == Some(Some(field_views(fs@))),
        },
{
    match serde_json::from_str::<serde_json::Value>(text) {
        Err(e) => Err(e.to_string()),
        Ok(v) => Ok(v.as_object().map(|o| o.iter().map(|(k, x)| (k.clone(), x.to_string())).collect())),
    }
}

/// Reads two JSON texts with `serde_json::from_str` and compares the values
/// with `==`.
#[verifier::external_body]
fn same_json(a: &str, b: &str) -> (r: bool)
    ensures
        r == json_same(a@, b@),
{
    match (serde_json::from_str::<serde_json::Value>(a), serde_json::from_str::<serde_json::Value>(b)) {
        (Ok(x), Ok(y)) => x == y,
        _ => false,
    }
}

/// Writes a string with `format!("{:?}")`.
#[verifier::external_body]
fn debug_quoted(s: &str) -> (r: String)
    ensures
        r@ == debug_text(s@),
{
    format!("{:?}", s)
}

/// The value of the first field of a name.
pub open spec fn field_of(fs: Seq<(Seq<char>, Seq<char>)>, name: Seq<char>) -> Option<Seq<char>>
    decreases fs.len(),
{
    if fs.len() == 0 {
        None
    } else if fs[0].0 == name {
        Some(fs[0].1)
    } else {
        field_of(fs.drop_first(), name)
    }
}

/// Whether a field differs between two configurations: present in one only,
/// or with values that are not equal.
pub open spec fn field_differs(a: Seq<(Seq<char>, Seq<char>)>, b: Seq<(Seq<char>, Seq<char>)>, name: Seq<char>) -> bool {
    match (field_of(a, name), field_of(b, name)) {
        (Some(x), Some(y)) => !json_same(x, y),
        (None, None) => false,
        _ => true,
    }
}

/// A value's text, or nothing.
pub open spec fn text_or_empty(v: Option<Seq<char>>) -> Seq<char> {
    match v {
        Some(t) => t,
        None => seq![],
    }
}

/// The line that reports a field's change.
pub open spec fn diff_line(a: Seq<(Seq<char>, Seq<char>)>, b: Seq<(Seq<char>, Seq<char>)>, name: Seq<char>) -> Seq<char> {
    "Field '"@ + name + "': "@ + debug_text(text_or_empty(field_of(a, name))) + " -> "@ + debug_text(
        text_or_empty(field_of(b, name)),
    )
}

/// The change lines for the given field names, in order.
pub open spec fn diff_over(names: Seq<Seq<char>>, a: Seq<(Seq<char>, Seq<char>)>, b: Seq<(Seq<char>, Seq<char>)>) -> Seq<
    Seq<char>,
>
    decreases names.len(),
{
    if names.len() == 0 {
        seq![]
    } else {
        diff_over(names.drop_last(), a, b) + if field_differs(a, b, names.last()) {
            seq![diff_line(a, b, names.last())]
        } else {
            seq![]
        }
    }
}

/// The change lines between two configurations: the names of the first,
/// then those of the second, each reported when its field differs (a name
/// in both that differs is reported twice).
pub open spec fn config_changes(a: Seq<(Seq<char>, Seq<char>)>, b: Seq<(Seq<char>, Seq<char>)>) -> Seq<Seq<char>> {
    diff_over(a.map_values(|f: (Seq<char>, Seq<char>)| f.0) + b.map_values(|f: (Seq<char>, Seq<char>)| f.0), a, b)
}

fn find_field(fs: &[(String, String)], name: &str) -> (r: Option<String>)
    ensures
        match r {
            Some(t) => field_of(field_views(fs@), name@) == Some(t@),
            None => field_of(field_views(fs@), name@).is_none(),
        },
{
    let ghost all = field_views(fs@);
    let mut i: usize = 0;
    assert(all.skip(0) =~= all);
    while i < fs.len()
        invariant
            i <= fs@.len(),
            all == field_views(fs@),
            field_of(all.skip(i as int), name@) == field_of(all, name@),
        decreases fs@.len() - i,
    {
        let ghost rest = all.skip(i as int);
        assert(rest[0] == (fs@[i as int].0@, fs@[i as int].1@));
        if str_eq(fs[i].0.as_str(), name) {
            return Some(fs[i].1.clone());
        }
        assert(rest.drop_first() =~= all.skip(i + 1));
        i = i + 1;
    }
    None
}

/// Adds the change line of a field when it differs.
fn report_field(out: &mut Vec<String>, a: &[(String, String)], b: &[(String, String)], name: &str)
    ensures
        final(out)@.map_values(|l: String| l@) == old(out)@.map_values(|l: String| l@) + if field_differs(
            field_views(a@),
            field_views(b@),
            name@,
        ) {
            seq![diff_line(field_views(a@), field_views(b@), name@)]
        } else {
            seq![]
        },
{
    let ghost before = out@.map_values(|l: String| l@);
    let va = find_field(a, name);
    let vb = find_field(b, name);
    let differs = match (&va, &vb) {
        (Some(x), Some(y)) => !same_json(x.as_str(), y.as_str()),
        (None, None) => false,
        _ => true,
    };
    if differs {
        let ta = match &va {
            Some(x) => debug_quoted(x.as_str()),
            None => debug_quoted(""),
        };
        let tb = match &vb {
            Some(y) => debug_quoted(y.as_str()),
            None => debug_quoted(""),
        };
        proof {
            reveal_strlit("");
        }
        let mut line = String::from_str("Field '");
        line.append(name);
        line.append("': ");
        line.append(ta.as_str());
        line.append(" -> ");
        line.append(tb.as_str());
        proof {
            assert(text_or_empty(field_of(field_views(a@), name@)) =~= match va {
                Some(x) => x@,
                None => ""@,
            });
            assert(text_or_empty(field_of(field_views(b@), name@)) =~= match vb {
                Some(y) => y@,
                None => ""@,
            });
        }
        out.push(line);
        assert(out@.map_values(|l: String| l@) =~= before + seq![diff_line(field_views(a@), field_views(b@), name@)]);
    } else {
        assert(out@.map_values(|l: String| l@) =~= before + seq![]);
    }
}

/// The change lines between two configuration objects.
pub fn field_changes(a: &[(String, String)], b: &[(String, String)]) -> (r: Vec<String>)
    ensures
        r@.map_values(|l: String| l@) == config_changes(field_views(a@), field_views(b@)),
{
    let ghost fa = field_views(a@);
    let ghost fb = field_views(b@);
    let ghost names = fa.map_values(|f: (Seq<char>, Seq<char>)| f.0) + fb.map_values(|f: (Seq<char>, Seq<char>)| f.0);
    let mut out: Vec<String> = Vec::new();
    let mut i: usize = 0;
    assert(out@.map_values(|l: String| l@) =~= diff_over(names.take(0), fa, fb));
    while i < a.len()
        invariant
            i <= a@.len(),
            fa == field_views(a@),
            fb == field_views(b@),
            names == fa.map_values(|f: (Seq<char>, Seq<char>)| f.0) + fb.map_values(|f: (Seq<char>, Seq<char>)| f.0),
            out@.map_values(|l: String| l@) == diff_over(names.take(i as int), fa, fb),
        decreases a@.len() - i,
    {
        assert(names.take(i + 1).drop_last() =~= names.take(i as int));
        assert(names.take(i + 1).last() == a@[i as int].0@);
        report_field(&mut out, a, b, a[i].0.as_str());
        i = i + 1;
    }
    let mut j: usize = 0;
    while j < b.len()
        invariant
            j <= b@.len(),
            a@.len() + b@.len() == names.len(),
            fa == field_views(a@),
            fb == field_views(b@),
            names == fa.map_values(|f: (Seq<char>, Seq<char>)| f.0) + fb.map_values(|f: (Seq<char>, Seq<char>)| f.0),
            out@.map_values(|l: String| l@) == diff_over(names.take((a@.len() + j) as int), fa, fb),
        decreases b@.len() - j,
    {
        assert(names.take((a@.len() + j + 1) as int).drop_last() =~= names.take((a@.len() + j) as int));
        assert(names.take((a@.len() + j + 1) as int).last() == b@[j as int].0@);
        report_field(&mut out, a, b, b[j].0.as_str());
        j = j + 1;
    }
    assert(names.take((a@.len() + b@.len()) as int) =~= names);
    out
}

/// The stored configuration of a version: missing when no version of that
/// id is stored, an error when its text is not JSON.
pub open spec fn stored_config_error(text: Option<Seq<char>>, id: Seq<char>) -> Option<FleetErrorKind> {
    match text {
        None => Some(FleetErrorKind::NotFound(id)),
        Some(t) => if json_object(t).is_none() {
            Some(FleetErrorKind::Serialization)
        } else {
            None
        },
    }
}

/// The kind of a fleet error, with the missing id where there is one.
pub enum FleetErrorKind {
    NotFound(Seq<char>),
    Serialization,
}

/// Whether an error is of a kind.
pub open spec fn error_is(e: FleetError, k: FleetErrorKind) -> bool {
    match k {
        FleetErrorKind::NotFound(id) => e matches FleetError::EndpointNotFound(m) && m@ == id,
        FleetErrorKind::Serialization => e is Serialization,
    }
}

/// Compares two stored configuration versions, given the stored text of
/// each (`None` when no version of that id is stored) and their ids. The
/// first version is read first: an error there is the one reported. Two
/// objects give their change lines; anything else gives none.
pub fn config_diff(a_text: Option<&str>, a_id: &str, b_text: Option<&str>, b_id: &str) -> (r: Result<
    Vec<String>,
    FleetError,
>)
    ensures
        match r {
            Err(e) => match stored_config_error(opt_text(a_text), a_id@) {
                Some(k) => error_is(e, k),
                None => match stored_config_error(opt_text(b_text), b_id@) {
                    Some(k) => error_is(e, k),
                    None => false,
                },
            },
            Ok(lines) => stored_config_error(opt_text(a_text), a_id@).is_none()
                && stored_config_error(opt_text(b_text), b_id@).is_none() && lines@.map_values(
                |l: String| l@,
            ) == match (json_object(text_or_empty(opt_text(a_text))), json_object(text_or_empty(opt_text(b_text)))) {
                (Some(Some(fa)), Some(Some(fb))) => config_changes(fa, fb),
                _ => Seq::empty(),
            },
        },
{
    let a = match a_text {
        None => {
            return Err(FleetError::EndpointNotFound(String::from_str(a_id)));
        },
        Some(t) => match object_fields(t) {
            Err(msg) => {
                return Err(FleetError::Serialization(msg));
            },
            Ok(fields) => fields,
        },
    };
    let b = match b_text {
        None => {
            return Err(FleetError::EndpointNotFound(String::from_str(b_id)));
        },
        Some(t) => match object_fields(t) {
            Err(msg) => {
                return Err(FleetError::Serialization(msg));
            },
            Ok(fields) => fields,
        },
    };
    match (a, b) {
        (Some(fa), Some(fb)) => Ok(field_changes(fa.as_slice(), fb.as_slice())),
        _ => {
            let v: Vec<String> = Vec::new();
            assert(v@.map_values(|l: String| l@) =~= Seq::<Seq<char>>::empty());
            Ok(v)
        },
    }
}

} // verus!
