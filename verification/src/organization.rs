//! Organizations: plans and their seat limits, the seat check on invitations,
//! and the usage counters.

use vstd::prelude::*;
use crate::text::str_eq;

verus! {

/// Why an organization request was refused. Storage failures are carried as messages.
#[derive(Debug)]
pub enum OrgError {
    OrgNotFound(String),
    TeamNotFound(String),
    UserNotFound(String),
    InviteNotFound,
    SeatLimitReached(u32, u32),
    Database(String),
    Serialization(String),
}

/// An organization's subscription. Enterprise limits are a list of names
/// with their values.
#[derive(Debug)]
pub enum OrgPlan {
    Free,
    Pro,
    Enterprise { custom_limits: Vec<(String, i64)> },
}

/// The stored name of a plan.
pub open spec fn plan_name(p: OrgPlan) -> Seq<char> {
    match p {
        OrgPlan::Free => "free"@,
        OrgPlan::Pro => "pro"@,
        OrgPlan::Enterprise { .. } => "enterprise"@,
    }
}

/// The seats a plan allows.
pub open spec fn plan_seats(p: OrgPlan) -> u32 {
    match p {
        OrgPlan::Free => 5,
        OrgPlan::Pro => 50,
        OrgPlan::Enterprise { .. } => u32::MAX,
    }
}

impl OrgPlan {
    /// The seats the plan allows: 5, 50, or no practical limit.
    pub fn max_seats(&self) -> (n: u32)
        ensures
            n == plan_seats(*self),
    {
        match self {
            OrgPlan::Free => 5,
            OrgPlan::Pro => 50,
            OrgPlan::Enterprise { .. } => 4294967295,
        }
    }

    /// The stored name of the plan.
    pub fn as_str(&self) -> (s: &'static str)
        ensures
            s@ == plan_name(*self),
    {
        match self {
            OrgPlan::Free => "free",
            OrgPlan::Pro => "pro",
            OrgPlan::Enterprise { .. } => "enterprise",
        }
    }

    /// The plan read from its stored name: `pro`, `enterprise` (with no
    /// custom limits), and anything else as free.
    pub fn from_db_str(s: &str) -> (p: OrgPlan)
        ensures
            s@ == "pro"@ ==> p is Pro,
            s@ == "enterprise"@ ==> (p matches OrgPlan::Enterprise { custom_limits } && custom_limits@.len() == 0),
            s@ != "pro"@ && s@ != "enterprise"@ ==> p is Free,
    {
        proof {
            reveal_strlit("pro");
            reveal_strlit("enterprise");
            assert("pro"@.len() == 3);
            assert("enterprise"@.len() == 10);
        }
        if str_eq(s, "pro") {
            OrgPlan::Pro
        } else if str_eq(s, "enterprise") {
            OrgPlan::Enterprise { custom_limits: Vec::new() }
        } else {
            OrgPlan::Free
        }
    }
}

/// Storing a plan and reading it back gives the same kind of plan.
pub proof fn plan_name_roundtrip(p: OrgPlan)
    ensures
        (plan_name(p) == "pro"@) <==> p is Pro,
        (plan_name(p) == "enterprise"@) <==> p is Enterprise,
{
    reveal_strlit("free");
    reveal_strlit("pro");
    reveal_strlit("enterprise");
    assert("free"@.len() == 4);
    assert("pro"@.len() == 3);
    assert("enterprise"@.len() == 10);
}

/// Where a member stands.
#[derive(Clone, Copy, Debug, PartialEq, Eq, Structural)]
pub enum MemberStatus {
    Active,
    Invited,
    Suspended,
}

/// A new invitation needs a free seat: `SeatLimitReached` with the seats
/// used and allowed when all are taken.
pub fn check_seat_available(used_seats: u32, max_seats: u32) -> (r: Result<(), OrgError>)
    ensures
        r is Ok <==> used_seats < max_seats,
        r is Err ==> (r matches Err(OrgError::SeatLimitReached(u, m)) && u == used_seats && m == max_seats),
{
    if used_seats >= max_seats {
        return Err(OrgError::SeatLimitReached(used_seats, max_seats));
    }
    Ok(())
}

/// The usage counters from the stored (metric, value) rows: the last
/// `skill_installs` row (cut to 32 bits) and the last `tasks` row (read as
/// unsigned); other metrics are ignored and missing ones are zero.
pub open spec fn usage_counts(rows: Seq<(Seq<char>, i64)>) -> (u32, u64)
    decreases rows.len(),
{
    if rows.len() == 0 {
        (0, 0)
    } else {
        let prev = usage_counts(rows.drop_last());
        let (m, v) = rows.last();
        if m == "skill_installs"@ {
            (v as u32, prev.1)
        } else if m == "tasks"@ {
            (prev.0, v as u64)
        } else {
            prev
        }
    }
}

/// Reads the usage counters of an organization from its stored rows.
pub fn usage_from_rows(rows: &[(String, i64)]) -> (r: (u32, u64))
    ensures
        r == usage_counts(rows@.map_values(|x: (String, i64)| (x.0@, x.1))),
{
    let ghost rs = rows@.map_values(|x: (String, i64)| (x.0@, x.1));
    let mut skills: u32 = 0;
    let mut tasks: u64 = 0;
    let mut i: usize = 0;
    while i < rows.len()
        invariant
            rs == rows@.map_values(|x: (String, i64)| (x.0@, x.1)),
            i <= rs.len(),
            (skills, tasks) == usage_counts(rs.take(i as int)),
        decreases rs.len() - i,
    {
        assert(rs.take(i + 1).drop_last() =~= rs.take(i as int));
        assert(rs[i as int] == (rows@[i as int].0@, rows@[i as int].1));
        if str_eq(rows[i].0.as_str(), "skill_installs") {
            skills = rows[i].1 as u32;
        } else if str_eq(rows[i].0.as_str(), "tasks") {
            tasks = rows[i].1 as u64;
        }
        i += 1;
    }
    assert(rs.take(rs.len() as int) =~= rs);
    (skills, tasks)
}

} // verus!
