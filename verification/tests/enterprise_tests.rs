use openzax::compliance::audit_csv;
use openzax::compliance::compliance_status;
use openzax::compliance::report_controls;
use openzax::compliance::soc2_controls;
use openzax::compliance::AuditEvent;
use openzax::compliance::ComplianceCheckStatus;
use openzax::compliance::ComplianceFramework;
use openzax::compliance::ControlStatus;
use openzax::compliance::DataRetentionPolicy;
use openzax::compliance::SiemExporter;
use openzax::fleet::filter_endpoints;
use openzax::fleet::health_report;
use openzax::fleet::AgentEndpoint;
use openzax::fleet::DataRegion;
use openzax::fleet::EndpointFilter;
use openzax::fleet::EndpointStatus;
use openzax::fleet::FleetPolicy;
use openzax::orchestration::cancel_outcome;
use openzax::orchestration::state_is_cancellable;
use openzax::orchestration::usage_period;
use openzax::orchestration::OrchestrationError;
use openzax::orchestration::ResourceClass;
use openzax::orchestration::TaskStatus;
use openzax::organization::check_seat_available;
use openzax::organization::usage_from_rows;
use openzax::organization::OrgError;
use openzax::organization::OrgPlan;
use openzax::rbac::Permission;
use openzax::rbac::PolicyEnforcer;
use openzax::rbac::RbacEngine;
use openzax::rbac::RbacError;
use openzax::rbac::Role;

#[test]
fn fleet_health_counts() {
    let rows = vec![
        ("online".to_string(), "1.0".to_string()),
        ("offline".to_string(), "0.9".to_string()),
        ("degraded".to_string(), "1.0".to_string()),
        ("weird".to_string(), "1.0".to_string()),
    ];
    let r = health_report(&rows, "1.0", vec!["i1".to_string()]);
    assert_eq!(r.total_endpoints, 4);
    assert_eq!(r.online, 1);
    assert_eq!(r.degraded, 1);
    assert_eq!(r.offline, 2);
    assert_eq!(r.outdated_version, 1);
    assert_eq!(r.policy_violations, 0);
    assert_eq!(r.recent_incidents, vec!["i1".to_string()]);
    assert_eq!(EndpointStatus::from_str("degraded"), EndpointStatus::Degraded);
    assert_eq!(EndpointStatus::from_str("x"), EndpointStatus::Offline);
    assert_eq!(EndpointStatus::Online.as_str(), "online");
    let p = FleetPolicy::default();
    assert_eq!(p.max_skills_per_agent, 100);
    assert_eq!(p.data_residency, DataRegion::Any);
}

fn endpoint(version: &str, status: EndpointStatus, skills: Vec<&str>) -> AgentEndpoint {
    AgentEndpoint {
        id: 1,
        org_id: 2,
        hostname: "h".to_string(),
        ip_address: "10.0.0.1".to_string(),
        os: "linux".to_string(),
        version: version.to_string(),
        status,
        last_seen: 0,
        installed_skills: skills.into_iter().map(String::from).collect(),
        active_policies: vec![],
    }
}

#[test]
fn endpoints_are_filtered() {
    let es = vec![
        endpoint("1.0", EndpointStatus::Online, vec!["a"]),
        endpoint("1.1", EndpointStatus::Offline, vec!["b"]),
        endpoint("1.0", EndpointStatus::Offline, vec!["a", "b"]),
    ];
    let f = EndpointFilter { status: Some(EndpointStatus::Offline), version: None, skill: Some("b".to_string()) };
    let out = filter_endpoints(es, Some(f));
    assert_eq!(out.len(), 2);
    assert_eq!(out[0].version, "1.1");
    let all = filter_endpoints(vec![endpoint("1", EndpointStatus::Online, vec![])], None);
    assert_eq!(all.len(), 1);
}

#[test]
fn seats_and_usage() {
    assert!(check_seat_available(4, 5).is_ok());
    assert!(matches!(check_seat_available(5, 5), Err(OrgError::SeatLimitReached(5, 5))));
    assert_eq!(OrgPlan::Free.max_seats(), 5);
    assert_eq!(OrgPlan::Pro.max_seats(), 50);
    assert_eq!(OrgPlan::Enterprise { custom_limits: vec![] }.max_seats(), u32::MAX);
    assert_eq!(OrgPlan::Pro.as_str(), "pro");
    assert!(matches!(OrgPlan::from_db_str("enterprise"), OrgPlan::Enterprise { .. }));
    let rows = vec![("skill_installs".to_string(), 3i64), ("tasks".to_string(), 9i64), ("other".to_string(), 1i64)];
    assert_eq!(usage_from_rows(&rows), (3, 9));
    assert_eq!(usage_from_rows(&[]), (0, 0));
}

#[test]
fn soc2_report_is_in_progress() {
    let controls = soc2_controls(2, 1, 10);
    assert_eq!(controls.len(), 5);
    assert_eq!(controls[0].control_id, "CC6.1");
    assert_eq!(controls[0].evidence, "2 session revocation events logged");
    assert_eq!(controls[3].status, ControlStatus::ManualReview);
    let s = compliance_status(&ComplianceFramework::Soc2TypeII, &controls, 77);
    assert_eq!(s.status, ComplianceCheckStatus::InProgress);
    assert_eq!(s.controls_passed, 4);
    assert_eq!(s.controls_failed, 0);
    assert_eq!(s.evidence_count, 5);
    assert_eq!(s.last_checked, 77);
    let other = report_controls(&ComplianceFramework::Gdpr, 0, 0, 0);
    assert_eq!(other.len(), 1);
    assert_eq!(other[0].control_id, "MANUAL-001");
    let p = DataRetentionPolicy::default();
    assert_eq!(p.audit_log_days, 365);
}

fn event() -> AuditEvent {
    AuditEvent {
        event_id: "e1".to_string(),
        org_id: "o1".to_string(),
        user_id: "u1".to_string(),
        action: "login".to_string(),
        resource_type: "session".to_string(),
        resource_id: "s1".to_string(),
        outcome: "success".to_string(),
        ip_address: "1.2.3.4".to_string(),
        timestamp: 1_700_000_000_000_000_000,
        metadata: serde_json::Value::Null,
    }
}

#[test]
fn audit_exports() {
    assert_eq!(
        SiemExporter::to_cef(&event()),
        "CEF:0|OpenZax|AuditLog|1.0|login|session|5|src=1.2.3.4 suser=u1 dhost=s1 outcome=success cs1=o1 cs1Label=org_id rt=1700000000000"
    );
    let csv = audit_csv(&[event()]);
    assert_eq!(
        csv,
        "event_id,org_id,user_id,action,resource_type,resource_id,outcome,ip_address,timestamp\ne1,o1,u1,login,session,s1,success,1.2.3.4,2023-11-14T22:13:20+00:00\n"
    );
}

#[test]
fn tasks_and_classes() {
    assert_eq!(ResourceClass::from_str("micro"), ResourceClass::Micro);
    assert_eq!(ResourceClass::from_str("huge"), ResourceClass::Standard);
    assert_eq!(ResourceClass::Performance.as_str(), "performance");
    assert_eq!(TaskStatus::Cancelled.as_state_str(), "cancelled");
    assert!(TaskStatus::Queued.is_cancellable());
    assert!(!TaskStatus::Cancelled.is_cancellable());
    assert!(state_is_cancellable("running"));
    assert!(!state_is_cancellable("completed"));
    assert!(matches!(cancel_outcome(0), Err(OrchestrationError::TaskAlreadyCompleted)));
    assert!(cancel_outcome(1).is_ok());
    let (a, b) = usage_period("2024-02");
    assert_eq!(a, "2024-02-01T00:00:00Z");
    assert_eq!(b, "2024-02-31T23:59:59Z");
}

#[test]
fn roles_grant_permissions() {
    let mut e = RbacEngine::new();
    e.assign_role("u1", "o1", Role::Developer, "admin", None).unwrap();
    assert_eq!(e.has_permission("u1", "o1", &Permission::ExecuteSkills).unwrap(), true);
    assert_eq!(e.has_permission("u1", "o1", &Permission::ManageBilling).unwrap(), false);
    assert_eq!(e.has_permission("u2", "o1", &Permission::ViewDashboard).unwrap(), false);
    e.assign_role("u1", "o1", Role::Viewer, "admin", None).unwrap();
    assert_eq!(e.has_permission("u1", "o1", &Permission::ExecuteSkills).unwrap(), false);
    e.define_custom_role("auditor", vec![Permission::ViewAuditLogs]).unwrap();
    e.assign_role("u3", "o1", Role::Custom("auditor".to_string()), "admin", Some("t1")).unwrap();
    assert_eq!(e.has_permission("u3", "o1", &Permission::ViewAuditLogs).unwrap(), true);
    {
        let p = PolicyEnforcer::new(&e);
        assert!(p.enforce("u3", "o1", &Permission::ViewAuditLogs).is_ok());
        assert!(matches!(p.enforce("u3", "o1", &Permission::ManageOrg), Err(RbacError::PermissionDenied(_))));
        assert!(p.enforce_any("u3", "o1", &[Permission::ManageOrg, Permission::ViewAuditLogs]).is_ok());
        assert!(p.enforce_all("u3", "o1", &[Permission::ManageOrg, Permission::ViewAuditLogs]).is_err());
    }
    assert!(e.revoke_role("u1", "o1").is_ok());
    assert!(e.revoke_role("u1", "o1").is_ok());
    assert_eq!(e.has_permission("u1", "o1", &Permission::ViewDashboard).unwrap(), false);
    assert_eq!(Role::OrgAdmin.default_permissions().len(), 13);
    assert_eq!(Role::Viewer.default_permissions(), vec![Permission::ViewDashboard]);
    assert_eq!(Permission::all().len(), 13);
    assert_eq!(Permission::from_str("manage_fleet"), Some(Permission::ManageFleet));
}
