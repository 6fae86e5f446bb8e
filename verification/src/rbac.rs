//! Role-based access control: the built-in roles and their permissions,
//! custom roles, role assignments per (user, organization), and the checks
//! that guard operations.

use vstd::prelude::*;
use vstd::string::*;
use crate::text::{str_eq, str_starts_with, concat2, chars_of, string_from_chars, has_prefix};
use crate::clock::now_millis;

verus! {

/// A permission that a role may grant.
#[derive(Clone, Copy, Debug, PartialEq, Eq, Structural)]
pub enum Permission {
    ManageOrg,
    ManageTeams,
    ManageUsers,
    ManageSkills,
    InstallSkills,
    ExecuteSkills,
    ViewAuditLogs,
    ExportAuditLogs,
    ManageFleet,
    ConfigurePolicy,
    ViewDashboard,
    ManageApiKeys,
    ManageBilling,
}

/// Every permission, in declaration order.
pub open spec fn all_permissions() -> Seq<Permission> {
    seq![
        Permission::ManageOrg,
        Permission::ManageTeams,
        Permission::ManageUsers,
        Permission::ManageSkills,
        Permission::InstallSkills,
        Permission::ExecuteSkills,
        Permission::ViewAuditLogs,
        Permission::ExportAuditLogs,
        Permission::ManageFleet,
        Permission::ConfigurePolicy,
        Permission::ViewDashboard,
        Permission::ManageApiKeys,
        Permission::ManageBilling,
    ]
}

/// Storage name of a permission.
pub open spec fn permission_name(p: Permission) -> Seq<char> {
    match p {
        Permission::ManageOrg => "manage_org"@,
        Permission::ManageTeams => "manage_teams"@,
        Permission::ManageUsers => "manage_users"@,
        Permission::ManageSkills => "manage_skills"@,
        Permission::InstallSkills => "install_skills"@,
        Permission::ExecuteSkills => "execute_skills"@,
        Permission::ViewAuditLogs => "view_audit_logs"@,
        Permission::ExportAuditLogs => "export_audit_logs"@,
        Permission::ManageFleet => "manage_fleet"@,
        Permission::ConfigurePolicy => "configure_policy"@,
        Permission::ViewDashboard => "view_dashboard"@,
        Permission::ManageApiKeys => "manage_api_keys"@,
        Permission::ManageBilling => "manage_billing"@,
    }
}

/// Name of a permission as `{:?}` prints it (the variant's name).
pub open spec fn permission_debug_name(p: Permission) -> Seq<char> {
    match p {
        Permission::ManageOrg => "ManageOrg"@,
        Permission::ManageTeams => "ManageTeams"@,
        Permission::ManageUsers => "ManageUsers"@,
        Permission::ManageSkills => "ManageSkills"@,
        Permission::InstallSkills => "InstallSkills"@,
        Permission::ExecuteSkills => "ExecuteSkills"@,
        Permission::ViewAuditLogs => "ViewAuditLogs"@,
        Permission::ExportAuditLogs => "ExportAuditLogs"@,
        Permission::ManageFleet => "ManageFleet"@,
        Permission::ConfigurePolicy => "ConfigurePolicy"@,
        Permission::ViewDashboard => "ViewDashboard"@,
        Permission::ManageApiKeys => "ManageApiKeys"@,
        Permission::ManageBilling => "ManageBilling"@,
    }
}

/// The permission stored under a name, if any.
pub open spec fn permission_from_name(s: Seq<char>) -> Option<Permission> {
    if s == "manage_org"@ {
        Some(Permission::ManageOrg)
    } else if s == "manage_teams"@ {
        Some(Permission::ManageTeams)
    } else if s == "manage_users"@ {
        Some(Permission::ManageUsers)
    } else if s == "manage_skills"@ {
        Some(Permission::ManageSkills)
    } else if s == "install_skills"@ {
        Some(Permission::InstallSkills)
    } else if s == "execute_skills"@ {
        Some(Permission::ExecuteSkills)
    } else if s == "view_audit_logs"@ {
        Some(Permission::ViewAuditLogs)
    } else if s == "export_audit_logs"@ {
        Some(Permission::ExportAuditLogs)
    } else if s == "manage_fleet"@ {
        Some(Permission::ManageFleet)
    } else if s == "configure_policy"@ {
        Some(Permission::ConfigurePolicy)
    } else if s == "view_dashboard"@ {
        Some(Permission::ViewDashboard)
    } else if s == "manage_api_keys"@ {
        Some(Permission::ManageApiKeys)
    } else if s == "manage_billing"@ {
        Some(Permission::ManageBilling)
    } else {
        None
    }
}

impl Permission {
    /// Every permission, in declaration order.
    pub fn all() -> (v: Vec<Permission>)
        ensures
            v@ == all_permissions(),
    {
        let v = vec![
            Permission::ManageOrg,
            Permission::ManageTeams,
            Permission::ManageUsers,
            Permission::ManageSkills,
            Permission::InstallSkills,
            Permission::ExecuteSkills,
            Permission::ViewAuditLogs,
            Permission::ExportAuditLogs,
            Permission::ManageFleet,
            Permission::ConfigurePolicy,
            Permission::ViewDashboard,
            Permission::ManageApiKeys,
            Permission::ManageBilling,
        ];
        assert(v@ =~= all_permissions());
        v
    }

    /// Storage name of the permission.
    pub fn as_str(&self) -> (s: &'static str)
        ensures
            s@ == permission_name(*self),
    {
        match self {
            Permission::ManageOrg => "manage_org",
            Permission::ManageTeams => "manage_teams",
            Permission::ManageUsers => "manage_users",
            Permission::ManageSkills => "manage_skills",
            Permission::InstallSkills => "install_skills",
            Permission::ExecuteSkills => "execute_skills",
            Permission::ViewAuditLogs => "view_audit_logs",
            Permission::ExportAuditLogs => "export_audit_logs",
            Permission::ManageFleet => "manage_fleet",
            Permission::ConfigurePolicy => "configure_policy",
            Permission::ViewDashboard => "view_dashboard",
            Permission::ManageApiKeys => "manage_api_keys",
            Permission::ManageBilling => "manage_billing",
        }
    }

    /// Name of the permission as `{:?}` prints it.
    pub fn debug_name(&self) -> (s: &'static str)
        ensures
            s@ == permission_debug_name(*self),
    {
        match self {
            Permission::ManageOrg => "ManageOrg",
            Permission::ManageTeams => "ManageTeams",
            Permission::ManageUsers => "ManageUsers",
            Permission::ManageSkills => "ManageSkills",
            Permission::InstallSkills => "InstallSkills",
            Permission::ExecuteSkills => "ExecuteSkills",
            Permission::ViewAuditLogs => "ViewAuditLogs",
            Permission::ExportAuditLogs => "ExportAuditLogs",
            Permission::ManageFleet => "ManageFleet",
            Permission::ConfigurePolicy => "ConfigurePolicy",
            Permission::ViewDashboard => "ViewDashboard",
            Permission::ManageApiKeys => "ManageApiKeys",
            Permission::ManageBilling => "ManageBilling",
        }
    }

    /// The permission stored under a name, if any.
    pub fn from_str(s: &str) -> (r: Option<Permission>)
        ensures
            r == permission_from_name(s@),
    {
        if str_eq(s, "manage_org") {
            Some(Permission::ManageOrg)
        } else if str_eq(s, "manage_teams") {
            Some(Permission::ManageTeams)
        } else if str_eq(s, "manage_users") {
            Some(Permission::ManageUsers)
        } else if str_eq(s, "manage_skills") {
            Some(Permission::ManageSkills)
        } else if str_eq(s, "install_skills") {
            Some(Permission::InstallSkills)
        } else if str_eq(s, "execute_skills") {
            Some(Permission::ExecuteSkills)
        } else if str_eq(s, "view_audit_logs") {
            Some(Permission::ViewAuditLogs)
        } else if str_eq(s, "export_audit_logs") {
            Some(Permission::ExportAuditLogs)
        } else if str_eq(s, "manage_fleet") {
            Some(Permission::ManageFleet)
        } else if str_eq(s, "configure_policy") {
            Some(Permission::ConfigurePolicy)
        } else if str_eq(s, "view_dashboard") {
            Some(Permission::ViewDashboard)
        } else if str_eq(s, "manage_api_keys") {
            Some(Permission::ManageApiKeys)
        } else if str_eq(s, "manage_billing") {
            Some(Permission::ManageBilling)
        } else {
            None
        }
    }
}

/// Two sequences that differ at some position are different.
proof fn lemma_differ_at(a: Seq<char>, b: Seq<char>, i: int)
    requires
        0 <= i < a.len(),
        i < b.len(),
        a[i] != b[i],
    ensures
        a != b,
{
}

/// Every permission's storage name reads back as that permission, and a name
/// reads back only as the permission stored under it.
pub proof fn permission_name_roundtrip(p: Permission, s: Seq<char>)
    ensures
        permission_from_name(permission_name(p)) == Some(p),
        permission_from_name(s) == Some(p) ==> permission_name(p) == s,
{
    reveal_strlit("manage_org");
    reveal_strlit("manage_teams");
    reveal_strlit("manage_users");
    reveal_strlit("manage_skills");
    reveal_strlit("install_skills");
    reveal_strlit("execute_skills");
    reveal_strlit("view_audit_logs");
    reveal_strlit("export_audit_logs");
    reveal_strlit("manage_fleet");
    reveal_strlit("configure_policy");
    reveal_strlit("view_dashboard");
    reveal_strlit("manage_api_keys");
    reveal_strlit("manage_billing");
    assert("manage_org"@.len() == 10);
    assert("manage_teams"@.len() == 12);
    assert("manage_users"@.len() == 12);
    assert("manage_skills"@.len() == 13);
    assert("install_skills"@.len() == 14);
    assert("execute_skills"@.len() == 14);
    assert("view_audit_logs"@.len() == 15);
    assert("export_audit_logs"@.len() == 17);
    assert("manage_fleet"@.len() == 12);
    assert("configure_policy"@.len() == 16);
    assert("view_dashboard"@.len() == 14);
    assert("manage_api_keys"@.len() == 15);
    assert("manage_billing"@.len() == 14);
    lemma_differ_at("manage_users"@, "manage_teams"@, 7);
    lemma_differ_at("execute_skills"@, "install_skills"@, 0);
    lemma_differ_at("manage_fleet"@, "manage_teams"@, 7);
    lemma_differ_at("manage_fleet"@, "manage_users"@, 7);
    lemma_differ_at("view_dashboard"@, "install_skills"@, 0);
    lemma_differ_at("view_dashboard"@, "execute_skills"@, 0);
    lemma_differ_at("manage_api_keys"@, "view_audit_logs"@, 0);
    lemma_differ_at("manage_billing"@, "install_skills"@, 0);
    lemma_differ_at("manage_billing"@, "execute_skills"@, 0);
    lemma_differ_at("manage_billing"@, "view_dashboard"@, 0);
    match p {
        Permission::ManageOrg => { assert(permission_from_name(permission_name(Permission::ManageOrg)) == Some(Permission::ManageOrg)); },
        Permission::ManageTeams => { assert(permission_from_name(permission_name(Permission::ManageTeams)) == Some(Permission::ManageTeams)); },
        Permission::ManageUsers => { assert(permission_from_name(permission_name(Permission::ManageUsers)) == Some(Permission::ManageUsers)); },
        Permission::ManageSkills => { assert(permission_from_name(permission_name(Permission::ManageSkills)) == Some(Permission::ManageSkills)); },
        Permission::InstallSkills => { assert(permission_from_name(permission_name(Permission::InstallSkills)) == Some(Permission::InstallSkills)); },
        Permission::ExecuteSkills => { assert(permission_from_name(permission_name(Permission::ExecuteSkills)) == Some(Permission::ExecuteSkills)); },
        Permission::ViewAuditLogs => { assert(permission_from_name(permission_name(Permission::ViewAuditLogs)) == Some(Permission::ViewAuditLogs)); },
        Permission::ExportAuditLogs => { assert(permission_from_name(permission_name(Permission::ExportAuditLogs)) == Some(Permission::ExportAuditLogs)); },
        Permission::ManageFleet => { assert(permission_from_name(permission_name(Permission::ManageFleet)) == Some(Permission::ManageFleet)); },
        Permission::ConfigurePolicy => { assert(permission_from_name(permission_name(Permission::ConfigurePolicy)) == Some(Permission::ConfigurePolicy)); },
        Permission::ViewDashboard => { assert(permission_from_name(permission_name(Permission::ViewDashboard)) == Some(Permission::ViewDashboard)); },
        Permission::ManageApiKeys => { assert(permission_from_name(permission_name(Permission::ManageApiKeys)) == Some(Permission::ManageApiKeys)); },
        Permission::ManageBilling => { assert(permission_from_name(permission_name(Permission::ManageBilling)) == Some(Permission::ManageBilling)); },
    }
}

// ── Roles ────────────────────────────────────────────────────────────────────

/// A role held in an organization.
#[derive(Debug)]
pub enum Role {
    SuperAdmin,
    OrgAdmin,
    TeamAdmin,
    Developer,
    Viewer,
    Custom(String),
}

/// A role as a plain value.
pub enum RoleView {
    SuperAdmin,
    OrgAdmin,
    TeamAdmin,
    Developer,
    Viewer,
    Custom(Seq<char>),
}

impl View for Role {
    type V = RoleView;

    open spec fn view(&self) -> RoleView {
        match self {
            Role::SuperAdmin => RoleView::SuperAdmin,
            Role::OrgAdmin => RoleView::OrgAdmin,
            Role::TeamAdmin => RoleView::TeamAdmin,
            Role::Developer => RoleView::Developer,
            Role::Viewer => RoleView::Viewer,
            Role::Custom(name) => RoleView::Custom(name@),
        }
    }
}

/// Storage name of a role; a custom role is stored as `custom:` and its name.
pub open spec fn role_name(r: RoleView) -> Seq<char> {
    match r {
        RoleView::SuperAdmin => "super_admin"@,
        RoleView::OrgAdmin => "org_admin"@,
        RoleView::TeamAdmin => "team_admin"@,
        RoleView::Developer => "developer"@,
        RoleView::Viewer => "viewer"@,
        RoleView::Custom(name) => "custom:"@ + name,
    }
}

/// The role stored under a name: a built-in role's name gives that role, a
/// name starting with `custom:` gives the custom role named by the rest, and
/// any other name is taken as a custom role's name.
pub open spec fn role_from_name(s: Seq<char>) -> RoleView {
    if s == "super_admin"@ {
        RoleView::SuperAdmin
    } else if s == "org_admin"@ {
        RoleView::OrgAdmin
    } else if s == "team_admin"@ {
        RoleView::TeamAdmin
    } else if s == "developer"@ {
        RoleView::Developer
    } else if s == "viewer"@ {
        RoleView::Viewer
    } else if has_prefix(s, "custom:"@) {
        RoleView::Custom(s.skip(7))
    } else {
        RoleView::Custom(s)
    }
}

/// The permissions a built-in role grants; a custom role grants none by itself.
pub open spec fn default_permission_set(r: RoleView) -> Set<Permission> {
    match r {
        RoleView::SuperAdmin => all_permissions().to_set(),
        RoleView::OrgAdmin => set![
            Permission::ManageOrg,
            Permission::ManageTeams,
            Permission::ManageUsers,
            Permission::ManageSkills,
            Permission::InstallSkills,
            Permission::ExecuteSkills,
            Permission::ViewAuditLogs,
            Permission::ExportAuditLogs,
            Permission::ManageFleet,
            Permission::ConfigurePolicy,
            Permission::ViewDashboard,
            Permission::ManageApiKeys,
            Permission::ManageBilling,
        ],
        RoleView::TeamAdmin => set![
            Permission::ManageTeams,
            Permission::ManageUsers,
            Permission::InstallSkills,
            Permission::ExecuteSkills,
            Permission::ViewDashboard,
            Permission::ManageApiKeys,
        ],
        RoleView::Developer => set![
            Permission::InstallSkills,
            Permission::ExecuteSkills,
            Permission::ViewDashboard,
            Permission::ManageApiKeys,
        ],
        RoleView::Viewer => set![Permission::ViewDashboard],
        RoleView::Custom(_) => Set::empty(),
    }
}

/// How many permissions a role holds by default: every one of the thirteen
/// for the two administrator roles of the whole, six for a team
/// administrator, four for a developer, one for a viewer, none for a
/// custom role.
pub open spec fn role_permission_count(r: RoleView) -> nat {
    match r {
        RoleView::SuperAdmin => 13,
        RoleView::OrgAdmin => 13,
        RoleView::TeamAdmin => 6,
        RoleView::Developer => 4,
        RoleView::Viewer => 1,
        RoleView::Custom(_) => 0,
    }
}

impl Clone for Role {
    fn clone(&self) -> (r: Role)
        ensures
            r@ == self@,
    {
        match self {
            Role::SuperAdmin => Role::SuperAdmin,
            Role::OrgAdmin => Role::OrgAdmin,
            Role::TeamAdmin => Role::TeamAdmin,
            Role::Developer => Role::Developer,
            Role::Viewer => Role::Viewer,
            Role::Custom(name) => Role::Custom(name.clone()),
        }
    }
}

impl Role {
    /// Storage name of the role.
    pub fn as_str(&self) -> (s: String)
        ensures
            s@ == role_name(self@),
    {
        match self {
            Role::SuperAdmin => String::from_str("super_admin"),
            Role::OrgAdmin => String::from_str("org_admin"),
            Role::TeamAdmin => String::from_str("team_admin"),
            Role::Developer => String::from_str("developer"),
            Role::Viewer => String::from_str("viewer"),
            Role::Custom(name) => concat2("custom:", name.as_str()),
        }
    }

    /// The role stored under a name.
    pub fn from_str(s: &str) -> (r: Role)
        ensures
            r@ == role_from_name(s@),
    {
        if str_eq(s, "super_admin") {
            Role::SuperAdmin
        } else if str_eq(s, "org_admin") {
            Role::OrgAdmin
        } else if str_eq(s, "team_admin") {
            Role::TeamAdmin
        } else if str_eq(s, "developer") {
            Role::Developer
        } else if str_eq(s, "viewer") {
            Role::Viewer
        } else if str_starts_with(s, "custom:") {
            proof {
                reveal_strlit("custom:");
            }
            let cs = chars_of(s);
            let mut rest: Vec<char> = Vec::new();
            let mut i: usize = 7;
            while i < cs.len()
                invariant
                    7 <= i <= cs@.len(),
                    cs@ == s@,
                    rest@ == s@.subrange(7, i as int),
                decreases cs@.len() - i,
            {
                rest.push(cs[i]);
                assert(rest@ =~= s@.subrange(7, i + 1));
                i += 1;
            }
            assert(rest@ =~= s@.skip(7));
            Role::Custom(string_from_chars(rest.as_slice()))
        } else {
            Role::Custom(String::from_str(s))
        }
    }

    /// The permissions the role grants by itself, without duplicates.
    pub fn default_permissions(&self) -> (v: Vec<Permission>)
        ensures
            v@.to_set() == default_permission_set(self@),
            v@.no_duplicates(),
            v@.len() == role_permission_count(self@),
            default_permission_set(self@).len() == role_permission_count(self@),
    {
        let v = match self {
            Role::SuperAdmin => Permission::all(),
            Role::OrgAdmin => vec![
                Permission::ManageOrg,
                Permission::ManageTeams,
                Permission::ManageUsers,
                Permission::ManageSkills,
                Permission::InstallSkills,
                Permission::ExecuteSkills,
                Permission::ViewAuditLogs,
                Permission::ExportAuditLogs,
                Permission::ManageFleet,
                Permission::ConfigurePolicy,
                Permission::ViewDashboard,
                Permission::ManageApiKeys,
                Permission::ManageBilling,
            ],
            Role::TeamAdmin => vec![
                Permission::ManageTeams,
                Permission::ManageUsers,
                Permission::InstallSkills,
                Permission::ExecuteSkills,
                Permission::ViewDashboard,
                Permission::ManageApiKeys,
            ],
            Role::Developer => vec![
                Permission::InstallSkills,
                Permission::ExecuteSkills,
                Permission::ViewDashboard,
                Permission::ManageApiKeys,
            ],
            Role::Viewer => vec![Permission::ViewDashboard],
            Role::Custom(_) => Vec::new(),
        };
        assert(v@.to_set() =~= default_permission_set(self@));
        proof {
            v@.unique_seq_to_set();
        }
        v
    }
}

/// Every role's storage name reads back as that role.
pub proof fn role_name_roundtrip(r: RoleView)
    ensures
        role_from_name(role_name(r)) == r,
{
    reveal_strlit("super_admin");
    reveal_strlit("org_admin");
    reveal_strlit("team_admin");
    reveal_strlit("developer");
    reveal_strlit("viewer");
    reveal_strlit("custom:");
    assert("super_admin"@.len() == 11);
    assert("org_admin"@.len() == 9);
    assert("team_admin"@.len() == 10);
    assert("developer"@.len() == 9);
    assert("viewer"@.len() == 6);
    assert("custom:"@.len() == 7);
    lemma_differ_at("team_admin"@, "org_admin"@, 0);
    match r {
        RoleView::SuperAdmin => {},
        RoleView::OrgAdmin => {},
        RoleView::TeamAdmin => {},
        RoleView::Developer => {},
        RoleView::Viewer => {},
        RoleView::Custom(_) => {},
    }
    if let RoleView::Custom(name) = r {
        let s = "custom:"@ + name;
        assert(s.subrange(0, 7) =~= "custom:"@);
        assert(s.skip(7) =~= name);
        lemma_differ_at(s, "super_admin"@, 0);
        lemma_differ_at(s, "org_admin"@, 0);
        lemma_differ_at(s, "team_admin"@, 0);
        lemma_differ_at(s, "developer"@, 0);
        lemma_differ_at(s, "viewer"@, 0);
        assert(has_prefix(s, "custom:"@));
    }
}

/// The built-in roles are nested: every permission of a viewer is a
/// developer's, every permission of a developer a team admin's, every
/// permission of a team admin an organization admin's, and a super admin
/// holds every permission.
pub proof fn role_hierarchy()
    ensures
        default_permission_set(RoleView::Viewer).subset_of(default_permission_set(RoleView::Developer)),
        default_permission_set(RoleView::Developer).subset_of(default_permission_set(RoleView::TeamAdmin)),
        default_permission_set(RoleView::TeamAdmin).subset_of(default_permission_set(RoleView::OrgAdmin)),
        default_permission_set(RoleView::OrgAdmin).subset_of(default_permission_set(RoleView::SuperAdmin)),
        forall|p: Permission| default_permission_set(RoleView::SuperAdmin).contains(p),
{
    assert forall|p: Permission| default_permission_set(RoleView::SuperAdmin).contains(p) by {
        let a = all_permissions();
        match p {
            Permission::ManageOrg => assert(a[0] == p),
            Permission::ManageTeams => assert(a[1] == p),
            Permission::ManageUsers => assert(a[2] == p),
            Permission::ManageSkills => assert(a[3] == p),
            Permission::InstallSkills => assert(a[4] == p),
            Permission::ExecuteSkills => assert(a[5] == p),
            Permission::ViewAuditLogs => assert(a[6] == p),
            Permission::ExportAuditLogs => assert(a[7] == p),
            Permission::ManageFleet => assert(a[8] == p),
            Permission::ConfigurePolicy => assert(a[9] == p),
            Permission::ViewDashboard => assert(a[10] == p),
            Permission::ManageApiKeys => assert(a[11] == p),
            Permission::ManageBilling => assert(a[12] == p),
        }
    }
}


// ── Assignments and checks ───────────────────────────────────────────────────

/// Errors of the access-control checks.
#[derive(Debug)]
pub enum RbacError {
    PermissionDenied(String),
    RoleNotFound(String),
    UserNotFound(String),
}

/// A role granted to a user in an organization (and possibly a team).
/// `granted_at` is in milliseconds since the Unix epoch.
#[derive(Debug)]
pub struct UserRole {
    pub user_id: String,
    pub organization_id: String,
    pub team_id: Option<String>,
    pub role: Role,
    pub granted_by: String,
    pub granted_at: i64,
}

/// A grant as plain values.
pub struct UserRoleView {
    pub user_id: Seq<char>,
    pub organization_id: Seq<char>,
    pub team_id: Option<Seq<char>>,
    pub role: RoleView,
    pub granted_by: Seq<char>,
    pub granted_at: i64,
}

impl View for UserRole {
    type V = UserRoleView;

    open spec fn view(&self) -> UserRoleView {
        UserRoleView {
            user_id: self.user_id@,
            organization_id: self.organization_id@,
            team_id: match self.team_id {
                Some(t) => Some(t@),
                None => None,
            },
            role: self.role@,
            granted_by: self.granted_by@,
            granted_at: self.granted_at,
        }
    }
}

impl Clone for UserRole {
    fn clone(&self) -> (r: UserRole)
        ensures
            r@ == self@,
    {
        UserRole {
            user_id: self.user_id.clone(),
            organization_id: self.organization_id.clone(),
            team_id: match &self.team_id {
                Some(t) => Some(t.clone()),
                None => None,
            },
            role: self.role.clone(),
            granted_by: self.granted_by.clone(),
            granted_at: self.granted_at,
        }
    }
}

/// A user of an organization.
#[derive(Debug)]
pub struct User {
    pub user_id: String,
    pub email: String,
    pub display_name: String,
}

/// A role as described to administrators: its name, its permissions, what
/// it is for, and whether an organization defined it.
#[derive(Debug)]
pub struct RoleDefinition {
    pub role_name: String,
    pub permissions: Vec<Permission>,
    pub description: String,
    pub is_custom: bool,
}

/// A custom role and the permissions defined for it.
#[derive(Debug)]
pub struct CustomRole {
    pub role_name: String,
    pub permissions: Vec<Permission>,
}

/// The role assignments (at most one per user and organization) and the custom
/// role definitions (at most one per name).
pub struct RbacEngine {
    roles: Vec<UserRole>,
    custom_role_permissions: Vec<CustomRole>,
}

/// The grants as plain values.
pub open spec fn grant_views(roles: Seq<UserRole>) -> Seq<UserRoleView> {
    roles.map_values(|r: UserRole| r@)
}

impl RbacEngine {
    /// The grants, in the order they were made.
    pub closed spec fn grants(&self) -> Seq<UserRoleView> {
        grant_views(self.roles@)
    }

    /// The custom role definitions: name and permissions.
    pub closed spec fn custom_roles(&self) -> Seq<(Seq<char>, Seq<Permission>)> {
        self.custom_role_permissions@.map_values(|c: CustomRole| (c.role_name@, c.permissions@))
    }

    /// At most one grant per (user, organization) and one definition per custom role name.
    pub open spec fn wf(&self) -> bool {
        &&& forall|i: int, j: int|
            0 <= i < self.grants().len() && 0 <= j < self.grants().len() && i != j
                ==> !(self.grants()[i].user_id == self.grants()[j].user_id
                && self.grants()[i].organization_id == self.grants()[j].organization_id)
        &&& forall|i: int, j: int|
            0 <= i < self.custom_roles().len() && 0 <= j < self.custom_roles().len() && i != j
                ==> self.custom_roles()[i].0 != self.custom_roles()[j].0
    }

    /// The permissions a role grants under this engine's custom definitions.
    pub open spec fn role_grants(&self, role: RoleView, p: Permission) -> bool {
        match role {
            RoleView::Custom(name) => exists|j: int|
                0 <= j < self.custom_roles().len() && self.custom_roles()[j].0 == name
                    && self.custom_roles()[j].1.contains(p),
            _ => default_permission_set(role).contains(p),
        }
    }

    /// The role the user holds in the organization, if any.
    pub open spec fn role_in(&self, user: Seq<char>, org: Seq<char>) -> Option<RoleView> {
        if exists|i: int|
            0 <= i < self.grants().len() && self.grants()[i].user_id == user
                && self.grants()[i].organization_id == org {
            let i = choose|i: int|
                0 <= i < self.grants().len() && self.grants()[i].user_id == user
                    && self.grants()[i].organization_id == org;
            Some(self.grants()[i].role)
        } else {
            None
        }
    }

    /// The user holds the permission in the organization.
    pub open spec fn allows(&self, user: Seq<char>, org: Seq<char>, p: Permission) -> bool {
        match self.role_in(user, org) {
            Some(role) => self.role_grants(role, p),
            None => false,
        }
    }

    /// An engine with no grants and no custom roles.
    pub fn new() -> (e: RbacEngine)
        ensures
            e.wf(),
            e.grants().len() == 0,
            e.custom_roles().len() == 0,
    {
        RbacEngine { roles: Vec::new(), custom_role_permissions: Vec::new() }
    }

    fn find_grant(&self, user_id: &str, org_id: &str) -> (r: Option<usize>)
        requires
            self.wf(),
        ensures
            match r {
                Some(i) => i < self.grants().len() && self.grants()[i as int].user_id == user_id@
                    && self.grants()[i as int].organization_id == org_id@,
                None => forall|i: int|
                    0 <= i < self.grants().len() ==> !(self.grants()[i].user_id == user_id@
                        && self.grants()[i].organization_id == org_id@),
            },
    {
        let mut i: usize = 0;
        while i < self.roles.len()
            invariant
                i <= self.roles@.len(),
                forall|k: int|
                    0 <= k < i ==> !(self.grants()[k].user_id == user_id@
                        && self.grants()[k].organization_id == org_id@),
            decreases self.roles@.len() - i,
        {
            if str_eq(self.roles[i].user_id.as_str(), user_id) && str_eq(
                self.roles[i].organization_id.as_str(),
                org_id,
            ) {
                return Some(i);
            }
            i += 1;
        }
        None
    }

    /// Grants `role` to the user in the organization, replacing any role the
    /// user held there; the grant is stamped with the current time.
    pub fn assign_role(
        &mut self,
        user_id: &str,
        org_id: &str,
        role: Role,
        granted_by: &str,
        team_id: Option<&str>,
    ) -> (r: Result<(), RbacError>)
        requires
            old(self).wf(),
        ensures
            final(self).wf(),
            r is Ok,
            final(self).custom_roles() == old(self).custom_roles(),
            final(self).role_in(user_id@, org_id@) == Some(role@),
            forall|u: Seq<char>, o: Seq<char>|
                !(u == user_id@ && o == org_id@) ==> final(self).role_in(u, o) == old(self).role_in(u, o),
    {
        let ghost old_grants = self.grants();
        let grant = UserRole {
            user_id: String::from_str(user_id),
            organization_id: String::from_str(org_id),
            team_id: match team_id {
                Some(t) => Some(String::from_str(t)),
                None => None,
            },
            role,
            granted_by: String::from_str(granted_by),
            granted_at: now_millis(),
        };
        match self.find_grant(user_id, org_id) {
            Some(i) => {
                self.roles.set(i, grant);
                proof {
                    let g = self.grants();
                    assert(g =~= old_grants.update(i as int, grant@));
                    assert forall|u: Seq<char>, o: Seq<char>| #![auto]
                        !(u == user_id@ && o == org_id@) implies self.role_in(u, o) == old(self).role_in(u, o) by {
                        if exists|k: int| 0 <= k < g.len() && g[k].user_id == u && g[k].organization_id == o {
                            let k = choose|k: int| 0 <= k < g.len() && g[k].user_id == u && g[k].organization_id == o;
                            assert(k != i);
                            assert(old_grants[k] == g[k]);
                        }
                        if exists|k: int| 0 <= k < old_grants.len() && old_grants[k].user_id == u && old_grants[k].organization_id == o {
                            let k = choose|k: int| 0 <= k < old_grants.len() && old_grants[k].user_id == u && old_grants[k].organization_id == o;
                            assert(k != i);
                            assert(old_grants[k] == g[k]);
                        }
                    }
                    assert(g[i as int].user_id == user_id@ && g[i as int].organization_id == org_id@);
                    assert forall|k: int| 0 <= k < g.len() implies g[k].user_id == old_grants[k].user_id
                        && g[k].organization_id == old_grants[k].organization_id by {}
                    assert forall|a: int, b: int| 0 <= a < g.len() && 0 <= b < g.len() && a != b implies
                        !(g[a].user_id == g[b].user_id && g[a].organization_id == g[b].organization_id) by {
                        assert(g[a].user_id == old_grants[a].user_id && g[a].organization_id == old_grants[a].organization_id);
                        assert(g[b].user_id == old_grants[b].user_id && g[b].organization_id == old_grants[b].organization_id);
                    }
                }
            },
            None => {
                self.roles.push(grant);
                proof {
                    let g = self.grants();
                    let n = old_grants.len() as int;
                    assert(g =~= old_grants.push(grant@));
                    assert forall|u: Seq<char>, o: Seq<char>| #![auto]
                        !(u == user_id@ && o == org_id@) implies self.role_in(u, o) == old(self).role_in(u, o) by {
                        if exists|k: int| 0 <= k < g.len() && g[k].user_id == u && g[k].organization_id == o {
                            let k = choose|k: int| 0 <= k < g.len() && g[k].user_id == u && g[k].organization_id == o;
                            assert(k != n);
                            assert(old_grants[k] == g[k]);
                        }
                        if exists|k: int| 0 <= k < old_grants.len() && old_grants[k].user_id == u && old_grants[k].organization_id == o {
                            let k = choose|k: int| 0 <= k < old_grants.len() && old_grants[k].user_id == u && old_grants[k].organization_id == o;
                            assert(old_grants[k] == g[k]);
                        }
                    }
                    assert(g[n].user_id == user_id@ && g[n].organization_id == org_id@);
                    assert forall|k: int| 0 <= k < n implies g[k] == old_grants[k] by {}
                    assert forall|a: int, b: int| 0 <= a < g.len() && 0 <= b < g.len() && a != b implies
                        !(g[a].user_id == g[b].user_id && g[a].organization_id == g[b].organization_id) by {
                        if a < n && b < n {
                            assert(g[a] == old_grants[a] && g[b] == old_grants[b]);
                        } else if a < n {
                            assert(g[a] == old_grants[a]);
                        } else {
                            assert(g[b] == old_grants[b]);
                        }
                    }
                }
            },
        }
        assert(self.custom_roles() == old(self).custom_roles());
        Ok(())
    }

    /// Removes the user's role in the organization, if any.
    pub fn revoke_role(&mut self, user_id: &str, org_id: &str) -> (r: Result<(), RbacError>)
        requires
            old(self).wf(),
        ensures
            final(self).wf(),
            r is Ok,
            final(self).custom_roles() == old(self).custom_roles(),
            final(self).role_in(user_id@, org_id@) is None,
            forall|u: Seq<char>, o: Seq<char>|
                !(u == user_id@ && o == org_id@) ==> final(self).role_in(u, o) == old(self).role_in(u, o),
    {
        let ghost old_grants = self.grants();
        assert(self.custom_roles() == old(self).custom_roles());
        match self.find_grant(user_id, org_id) {
            Some(i) => {
                self.roles.remove(i);
                proof {
                    let g = self.grants();
                    assert(g =~= old_grants.remove(i as int));
                    assert forall|u: Seq<char>, o: Seq<char>| #![auto]
                        !(u == user_id@ && o == org_id@) implies self.role_in(u, o) == old(self).role_in(u, o) by {
                        if exists|k: int| 0 <= k < g.len() && g[k].user_id == u && g[k].organization_id == o {
                            let k = choose|k: int| 0 <= k < g.len() && g[k].user_id == u && g[k].organization_id == o;
                            if k < i { assert(old_grants[k] == g[k]); } else { assert(old_grants[k + 1] == g[k]); }
                        }
                        if exists|k: int| 0 <= k < old_grants.len() && old_grants[k].user_id == u && old_grants[k].organization_id == o {
                            let k = choose|k: int| 0 <= k < old_grants.len() && old_grants[k].user_id == u && old_grants[k].organization_id == o;
                            assert(k != i);
                            if k < i { assert(old_grants[k] == g[k]); } else { assert(old_grants[k] == g[k - 1]); }
                        }
                    }
                    assert forall|k: int| 0 <= k < g.len() implies !(g[k].user_id == user_id@ && g[k].organization_id == org_id@) by {
                        if k < i { assert(old_grants[k] == g[k]); } else { assert(old_grants[k + 1] == g[k]); }
                    }
                    assert forall|a: int, b: int| 0 <= a < g.len() && 0 <= b < g.len() && a != b implies
                        !(g[a].user_id == g[b].user_id && g[a].organization_id == g[b].organization_id) by {
                        let a2 = if a < i { a } else { a + 1 };
                        let b2 = if b < i { b } else { b + 1 };
                        assert(g[a] == old_grants[a2]);
                        assert(g[b] == old_grants[b2]);
                    }
                }
            },
            None => {},
        }
        Ok(())
    }

    /// The custom definition of a role name, if any.
    fn find_custom(&self, name: &str) -> (r: Option<usize>)
        ensures
            match r {
                Some(j) => j < self.custom_roles().len() && self.custom_roles()[j as int].0 == name@,
                None => forall|j: int| 0 <= j < self.custom_roles().len() ==> self.custom_roles()[j].0 != name@,
            },
    {
        let mut j: usize = 0;
        while j < self.custom_role_permissions.len()
            invariant
                j <= self.custom_role_permissions@.len(),
                forall|k: int| 0 <= k < j ==> self.custom_roles()[k].0 != name@,
            decreases self.custom_role_permissions@.len() - j,
        {
            if str_eq(self.custom_role_permissions[j].role_name.as_str(), name) {
                return Some(j);
            }
            j += 1;
        }
        None
    }

    /// Whether a role grants a permission under this engine's custom definitions.
    pub fn role_has_permission(&self, role: &Role, permission: Permission) -> (b: bool)
        requires
            self.wf(),
        ensures
            b == self.role_grants(role@, permission),
    {
        match role {
            Role::Custom(name) => {
                match self.find_custom(name.as_str()) {
                    Some(j) => {
                        let perms = &self.custom_role_permissions[j].permissions;
                        assert(perms@ == self.custom_roles()[j as int].1);
                        let mut k: usize = 0;
                        while k < perms.len()
                            invariant
                                k <= perms@.len(),
                                j < self.custom_roles().len(),
                                perms@ == self.custom_roles()[j as int].1,
                                self.custom_roles()[j as int].0 == name@,
                                role@ == RoleView::Custom(name@),
                                forall|t: int| 0 <= t < k ==> perms@[t] != permission,
                            decreases perms@.len() - k,
                        {
                            if perms[k] == permission {
                                assert(self.custom_roles()[j as int].1[k as int] == permission);
                                assert(self.custom_roles()[j as int].1.contains(permission));
                                return true;
                            }
                            k += 1;
                        }
                        proof {
                            assert(!self.custom_roles()[j as int].1.contains(permission));
                            assert forall|t: int| 0 <= t < self.custom_roles().len() && self.custom_roles()[t].0 == name@
                                implies !self.custom_roles()[t].1.contains(permission) by {
                                assert(t == j);
                            }
                        }
                        false
                    },
                    None => false,
                }
            },
            _ => {
                let perms = role.default_permissions();
                let mut k: usize = 0;
                while k < perms.len()
                    invariant
                        k <= perms@.len(),
                        perms@.to_set() == default_permission_set(role@),
                        forall|t: int| 0 <= t < k ==> perms@[t] != permission,
                    decreases perms@.len() - k,
                {
                    if perms[k] == permission {
                        assert(perms@.contains(permission));
                        assert(perms@.to_set().contains(permission));
                        assert(default_permission_set(role@).contains(permission));
                        return true;
                    }
                    k += 1;
                }
                assert(!perms@.contains(permission));
                false
            },
        }
    }

    /// The permissions a role grants: a custom role's defined permissions, or
    /// a built-in role's defaults.
    pub fn permissions_for_role(&self, role: &Role) -> (v: Vec<Permission>)
        requires
            self.wf(),
        ensures
            forall|p: Permission| v@.contains(p) <==> self.role_grants(role@, p),
    {
        match role {
            Role::Custom(name) => match self.find_custom(name.as_str()) {
                Some(j) => {
                    let perms = &self.custom_role_permissions[j].permissions;
                    let mut v: Vec<Permission> = Vec::new();
                    let mut k: usize = 0;
                    while k < perms.len()
                        invariant
                            k <= perms@.len(),
                            v@ == perms@.take(k as int),
                        decreases perms@.len() - k,
                    {
                        v.push(perms[k]);
                        assert(v@ =~= perms@.take(k + 1));
                        k += 1;
                    }
                    assert(v@ =~= perms@);
                    proof {
                        assert forall|p: Permission| v@.contains(p) <==> self.role_grants(role@, p) by {
                            if self.role_grants(role@, p) {
                                let t = choose|t: int| 0 <= t < self.custom_roles().len() && self.custom_roles()[t].0 == name@ && self.custom_roles()[t].1.contains(p);
                                assert(t == j);
                            }
                        }
                    }
                    v
                },
                None => Vec::new(),
            },
            _ => {
                let v = role.default_permissions();
                v
            },
        }
    }

    /// Whether the user holds the permission in the organization.
    pub fn has_permission(&self, user_id: &str, org_id: &str, permission: &Permission) -> (r: Result<bool, RbacError>)
        requires
            self.wf(),
        ensures
            r matches Ok(b) && b == self.allows(user_id@, org_id@, *permission),
    {
        match self.find_grant(user_id, org_id) {
            Some(i) => {
                let b = self.role_has_permission(&self.roles[i].role, *permission);
                proof {
                    let k = choose|k: int| 0 <= k < self.grants().len() && self.grants()[k].user_id == user_id@
                        && self.grants()[k].organization_id == org_id@;
                    assert(k == i);
                }
                Ok(b)
            },
            None => Ok(false),
        }
    }

    /// The user's grants in every organization, in the order they were made.
    pub fn get_user_roles(&self, user_id: &str) -> (r: Result<Vec<UserRole>, RbacError>)
        ensures
            r matches Ok(v) && grant_views(v@) == self.grants().filter(|g: UserRoleView| g.user_id == user_id@),
    {
        let ghost gs = self.grants();
        let ghost pred = |g: UserRoleView| g.user_id == user_id@;
        let mut out: Vec<UserRole> = Vec::new();
        let mut i: usize = 0;
        assert(gs.take(0).filter(pred) =~= seq![]);
        while i < self.roles.len()
            invariant
                i <= self.roles@.len(),
                gs == self.grants(),
                pred == (|g: UserRoleView| g.user_id == user_id@),
                grant_views(out@) == gs.take(i as int).filter(pred),
            decreases self.roles@.len() - i,
        {
            reveal_with_fuel(Seq::<_>::filter, 1);
            assert(gs.take(i + 1).drop_last() =~= gs.take(i as int));
            if str_eq(self.roles[i].user_id.as_str(), user_id) {
                out.push(self.roles[i].clone());
            }
            assert(grant_views(out@) =~= gs.take(i + 1).filter(pred));
            i += 1;
        }
        assert(gs.take(self.roles@.len() as int) =~= gs);
        Ok(out)
    }

    /// The users of an organization with their roles, in the order they were granted.
    pub fn list_org_users(&self, org_id: &str) -> (r: Result<Vec<(String, Role)>, RbacError>)
        ensures
            r matches Ok(v) && v@.map_values(|p: (String, Role)| (p.0@, p.1@)) == self.grants().filter(
                |g: UserRoleView| g.organization_id == org_id@,
            ).map_values(|g: UserRoleView| (g.user_id, g.role)),
    {
        let ghost gs = self.grants();
        let ghost pred = |g: UserRoleView| g.organization_id == org_id@;
        let ghost f = |g: UserRoleView| (g.user_id, g.role);
        let ghost h = |p: (String, Role)| (p.0@, p.1@);
        let mut out: Vec<(String, Role)> = Vec::new();
        let mut i: usize = 0;
        assert(gs.take(0).filter(pred).map_values(f) =~= seq![]);
        while i < self.roles.len()
            invariant
                i <= self.roles@.len(),
                gs == self.grants(),
                pred == (|g: UserRoleView| g.organization_id == org_id@),
                f == (|g: UserRoleView| (g.user_id, g.role)),
                h == (|p: (String, Role)| (p.0@, p.1@)),
                out@.map_values(h) == gs.take(i as int).filter(pred).map_values(f),
            decreases self.roles@.len() - i,
        {
            reveal_with_fuel(Seq::<_>::filter, 1);
            assert(gs.take(i + 1).drop_last() =~= gs.take(i as int));
            let ghost before = out@;
            assert(gs[i as int] == self.roles@[i as int]@);
            if str_eq(self.roles[i].organization_id.as_str(), org_id) {
                out.push((self.roles[i].user_id.clone(), self.roles[i].role.clone()));
                assert(gs.take(i + 1).filter(pred) =~= gs.take(i as int).filter(pred).push(gs[i as int]));
                assert(out@ =~= before.push(out@[i as int - i as int + before.len()]));
                assert(out@.map_values(h) =~= before.map_values(h).push(h(out@.last())));
                assert(gs.take(i as int).filter(pred).push(gs[i as int]).map_values(f) =~= gs.take(i as int).filter(pred).map_values(f).push(f(gs[i as int])));
            } else {
                assert(gs.take(i + 1).filter(pred) =~= gs.take(i as int).filter(pred));
            }
            assert(out@.map_values(h) =~= gs.take(i + 1).filter(pred).map_values(f));
            i += 1;
        }
        assert(gs.take(self.roles@.len() as int) =~= gs);
        Ok(out)
    }

    /// Defines (or redefines) a custom role's permissions.
    pub fn define_custom_role(&mut self, role_name: &str, permissions: Vec<Permission>) -> (r: Result<(), RbacError>)
        requires
            old(self).wf(),
        ensures
            final(self).wf(),
            r is Ok,
            final(self).grants() == old(self).grants(),
            forall|p: Permission| final(self).role_grants(RoleView::Custom(role_name@), p) <==> permissions@.contains(p),
            forall|n: Seq<char>, p: Permission| n != role_name@ ==> (final(self).role_grants(RoleView::Custom(n), p)
                <==> old(self).role_grants(RoleView::Custom(n), p)),
    {
        let ghost old_c = self.custom_roles();
        let ghost perms = permissions@;
        let def = CustomRole { role_name: String::from_str(role_name), permissions };
        match self.find_custom(role_name) {
            Some(j) => {
                self.custom_role_permissions.set(j, def);
                proof {
                    let c = self.custom_roles();
                    assert(c =~= old_c.update(j as int, (role_name@, perms)));
                    assert forall|p: Permission| self.role_grants(RoleView::Custom(role_name@), p) <==> perms.contains(p) by {
                        if self.role_grants(RoleView::Custom(role_name@), p) {
                            let t = choose|t: int| 0 <= t < c.len() && c[t].0 == role_name@ && c[t].1.contains(p);
                            assert(t == j);
                        }
                        if perms.contains(p) {
                            assert(c[j as int].0 == role_name@);
                        }
                    }
                    assert forall|n: Seq<char>, p: Permission| n != role_name@ implies (self.role_grants(RoleView::Custom(n), p)
                        <==> old(self).role_grants(RoleView::Custom(n), p)) by {
                        if self.role_grants(RoleView::Custom(n), p) {
                            let t = choose|t: int| 0 <= t < c.len() && c[t].0 == n && c[t].1.contains(p);
                            assert(old_c[t] == c[t]);
                        }
                        if old(self).role_grants(RoleView::Custom(n), p) {
                            let t = choose|t: int| 0 <= t < old_c.len() && old_c[t].0 == n && old_c[t].1.contains(p);
                            assert(old_c[t] == c[t]);
                        }
                    }
                }
            },
            None => {
                self.custom_role_permissions.push(def);
                proof {
                    let c = self.custom_roles();
                    let m = old_c.len() as int;
                    assert(c =~= old_c.push((role_name@, perms)));
                    assert forall|p: Permission| self.role_grants(RoleView::Custom(role_name@), p) <==> perms.contains(p) by {
                        if self.role_grants(RoleView::Custom(role_name@), p) {
                            let t = choose|t: int| 0 <= t < c.len() && c[t].0 == role_name@ && c[t].1.contains(p);
                            assert(t == m);
                        }
                        if perms.contains(p) {
                            assert(c[m].0 == role_name@);
                        }
                    }
                    assert forall|n: Seq<char>, p: Permission| n != role_name@ implies (self.role_grants(RoleView::Custom(n), p)
                        <==> old(self).role_grants(RoleView::Custom(n), p)) by {
                        if self.role_grants(RoleView::Custom(n), p) {
                            let t = choose|t: int| 0 <= t < c.len() && c[t].0 == n && c[t].1.contains(p);
                            assert(t != m);
                            assert(old_c[t] == c[t]);
                        }
                        if old(self).role_grants(RoleView::Custom(n), p) {
                            let t = choose|t: int| 0 <= t < old_c.len() && old_c[t].0 == n && old_c[t].1.contains(p);
                            assert(old_c[t] == c[t]);
                        }
                    }
                }
            },
        }
        Ok(())
    }
}


/// What a grant means: a user holding a role in an organization holds exactly
/// the permissions that role grants there.
pub proof fn grant_decides_access(e: &RbacEngine, user: Seq<char>, org: Seq<char>, role: RoleView, p: Permission)
    requires
        e.role_in(user, org) == Some(role),
    ensures
        e.allows(user, org, p) == e.role_grants(role, p),
{
}

/// What each built-in role lets its holder do in an organization: a super
/// admin and an organization admin everything; a team admin exactly to
/// manage teams, users and API keys, install and run skills and view the
/// dashboard (so not to manage billing, the organization, skills, the fleet
/// or policy, nor to see or export audit logs); a developer exactly to
/// install and run skills, manage API keys and view the dashboard; a viewer
/// only to view the dashboard.
pub proof fn what_each_role_allows(e: &RbacEngine, user: Seq<char>, org: Seq<char>, p: Permission)
    ensures
        e.role_in(user, org) == Some(RoleView::SuperAdmin) ==> e.allows(user, org, p),
        e.role_in(user, org) == Some(RoleView::OrgAdmin) ==> e.allows(user, org, p),
        e.role_in(user, org) == Some(RoleView::TeamAdmin) ==> (e.allows(user, org, p) <==> (p
            == Permission::ManageTeams || p == Permission::ManageUsers || p == Permission::InstallSkills || p
            == Permission::ExecuteSkills || p == Permission::ViewDashboard || p == Permission::ManageApiKeys)),
        e.role_in(user, org) == Some(RoleView::Developer) ==> (e.allows(user, org, p) <==> (p
            == Permission::InstallSkills || p == Permission::ExecuteSkills || p == Permission::ViewDashboard || p
            == Permission::ManageApiKeys)),
        e.role_in(user, org) == Some(RoleView::Viewer) ==> (e.allows(user, org, p) <==> p
            == Permission::ViewDashboard),
{
    role_hierarchy();
    match p {
        Permission::ManageOrg => {},
        Permission::ManageTeams => {},
        Permission::ManageUsers => {},
        Permission::ManageSkills => {},
        Permission::InstallSkills => {},
        Permission::ExecuteSkills => {},
        Permission::ViewAuditLogs => {},
        Permission::ExportAuditLogs => {},
        Permission::ManageFleet => {},
        Permission::ConfigurePolicy => {},
        Permission::ViewDashboard => {},
        Permission::ManageApiKeys => {},
        Permission::ManageBilling => {},
    }
}

/// A user without a role in an organization holds no permission there.
pub proof fn no_grant_no_access(e: &RbacEngine, user: Seq<char>, org: Seq<char>, p: Permission)
    requires
        e.role_in(user, org) is None,
    ensures
        !e.allows(user, org, p),
{
}

/// The message of a refused single-permission check.
pub open spec fn denied_message(user: Seq<char>, org: Seq<char>, p: Permission) -> Seq<char> {
    "User '"@ + user + "' lacks "@ + permission_debug_name(p) + " in org '"@ + org + "'"@
}

/// The names of permissions joined by `, `.
pub open spec fn debug_names_joined(ps: Seq<Permission>) -> Seq<char>
    decreases ps.len(),
{
    if ps.len() == 0 {
        seq![]
    } else if ps.len() == 1 {
        permission_debug_name(ps[0])
    } else {
        debug_names_joined(ps.drop_last()) + ", "@ + permission_debug_name(ps.last())
    }
}

/// A list of permissions as `{:?}` prints it.
pub open spec fn debug_list(ps: Seq<Permission>) -> Seq<char> {
    "["@ + debug_names_joined(ps) + "]"@
}

/// The message of a refused any-of check.
pub open spec fn denied_any_message(user: Seq<char>, org: Seq<char>, ps: Seq<Permission>) -> Seq<char> {
    "User '"@ + user + "' lacks all of "@ + debug_list(ps) + " in org '"@ + org + "'"@
}

/// Checks permissions before operations are allowed.
pub struct PolicyEnforcer<'a> {
    rbac: &'a RbacEngine,
}

impl<'a> PolicyEnforcer<'a> {
    pub closed spec fn engine(&self) -> &'a RbacEngine {
        self.rbac
    }

    pub fn new(rbac: &'a RbacEngine) -> (p: PolicyEnforcer<'a>)
        ensures
            p.engine() == rbac,
    {
        PolicyEnforcer { rbac }
    }

    fn denied(user_id: &str, org_id: &str, permission: &Permission) -> (e: RbacError)
        ensures
            e matches RbacError::PermissionDenied(m) && m@ == denied_message(user_id@, org_id@, *permission),
    {
        let mut m = String::from_str("User '");
        m.append(user_id);
        m.append("' lacks ");
        m.append(permission.debug_name());
        m.append(" in org '");
        m.append(org_id);
        m.append("'");
        RbacError::PermissionDenied(m)
    }

    /// Succeeds when the user holds the permission in the organization.
    pub fn enforce(&self, user_id: &str, org_id: &str, permission: &Permission) -> (r: Result<(), RbacError>)
        requires
            self.engine().wf(),
        ensures
            r is Ok <==> self.engine().allows(user_id@, org_id@, *permission),
            r matches Err(e) ==> (e matches RbacError::PermissionDenied(m) && m@ == denied_message(
                user_id@,
                org_id@,
                *permission,
            )),
    {
        let allowed = match self.rbac.has_permission(user_id, org_id, permission) {
            Ok(b) => b,
            Err(e) => return Err(e),
        };
        if !allowed {
            return Err(Self::denied(user_id, org_id, permission));
        }
        Ok(())
    }

    /// Succeeds when the user holds at least one of the permissions.
    pub fn enforce_any(&self, user_id: &str, org_id: &str, permissions: &[Permission]) -> (r: Result<(), RbacError>)
        requires
            self.engine().wf(),
        ensures
            r is Ok <==> exists|i: int|
                0 <= i < permissions@.len() && self.engine().allows(user_id@, org_id@, permissions@[i]),
            r matches Err(e) ==> (e matches RbacError::PermissionDenied(m) && m@ == denied_any_message(
                user_id@,
                org_id@,
                permissions@,
            )),
    {
        let mut i: usize = 0;
        while i < permissions.len()
            invariant
                i <= permissions@.len(),
                self.engine().wf(),
                forall|k: int| 0 <= k < i ==> !self.engine().allows(user_id@, org_id@, permissions@[k]),
            decreases permissions@.len() - i,
        {
            match self.rbac.has_permission(user_id, org_id, &permissions[i]) {
                Ok(true) => return Ok(()),
                Ok(false) => {},
                Err(e) => return Err(e),
            }
            i += 1;
        }
        let mut m = String::from_str("User '");
        m.append(user_id);
        m.append("' lacks all of [");
        let mut k: usize = 0;
        let ghost ps = permissions@;
        proof {
            assert(ps.take(0) =~= seq![]);
        }
        while k < permissions.len()
            invariant
                k <= ps.len(),
                ps == permissions@,
                m@ == "User '"@ + user_id@ + "' lacks all of ["@ + debug_names_joined(ps.take(k as int)),
            decreases ps.len() - k,
        {
            let ghost before = m@;
            if k > 0 {
                m.append(", ");
            }
            m.append(permissions[k].debug_name());
            proof {
                assert(ps.take(k + 1).drop_last() =~= ps.take(k as int));
                if k == 0 {
                    assert(debug_names_joined(ps.take(1)) == permission_debug_name(ps[0]));
                }
                assert(m@ =~= "User '"@ + user_id@ + "' lacks all of ["@ + debug_names_joined(ps.take(k + 1)));
            }
            k += 1;
        }
        assert(ps.take(ps.len() as int) =~= ps);
        m.append("] in org '");
        m.append(org_id);
        m.append("'");
        proof {
            reveal_strlit("' lacks all of [");
            reveal_strlit("' lacks all of ");
            reveal_strlit("[");
            reveal_strlit("]");
            reveal_strlit("] in org '");
            reveal_strlit(" in org '");
            assert("' lacks all of ["@ =~= "' lacks all of "@ + "["@);
            assert("] in org '"@ =~= "]"@ + " in org '"@);
        }
        assert(m@ =~= denied_any_message(user_id@, org_id@, ps));
        Err(RbacError::PermissionDenied(m))
    }

    /// Succeeds when the user holds every permission; otherwise refuses with
    /// the first permission, in order, that the user lacks.
    pub fn enforce_all(&self, user_id: &str, org_id: &str, permissions: &[Permission]) -> (r: Result<(), RbacError>)
        requires
            self.engine().wf(),
        ensures
            r is Ok <==> forall|i: int|
                0 <= i < permissions@.len() ==> self.engine().allows(user_id@, org_id@, permissions@[i]),
            r matches Err(e) ==> exists|i: int|
                0 <= i < permissions@.len() && !self.engine().allows(user_id@, org_id@, permissions@[i])
                    && (forall|k: int| 0 <= k < i ==> self.engine().allows(user_id@, org_id@, permissions@[k]))
                    && (e matches RbacError::PermissionDenied(m) && m@ == denied_message(user_id@, org_id@, permissions@[i])),
    {
        let mut i: usize = 0;
        while i < permissions.len()
            invariant
                i <= permissions@.len(),
                self.engine().wf(),
                forall|k: int| 0 <= k < i ==> self.engine().allows(user_id@, org_id@, permissions@[k]),
            decreases permissions@.len() - i,
        {
            match self.enforce(user_id, org_id, &permissions[i]) {
                Ok(()) => {},
                Err(e) => {
                    assert(!self.engine().allows(user_id@, org_id@, permissions@[i as int]));
                    return Err(e);
                },
            }
            i += 1;
        }
        Ok(())
    }
}

} // verus!
