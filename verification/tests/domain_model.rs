use crabot::domain::{
    CapabilityRef, CapabilitySource, CompanyProfile, DepartmentProfile, RuntimeEvent,
    RuntimeEventKind, Session, SessionPhase, TaskGraph, TaskNode, TaskStatus,
};
use crabot::plugins::PermissionLevel;
use crabot::tooling::{ApprovalRequirement, CapabilityMetadata, Empty, Schema};

#[test]
fn creates_default_company_departments() {
    let company = CompanyProfile::default();
    assert_eq!(company.departments.len(), 3);
    assert_eq!(company.departments[0].key, "research");
}

#[test]
fn flags_side_effect_permissions() {
    assert!(!PermissionLevel::ReadOnly.requires_approval());
    assert!(PermissionLevel::WorkspaceWrite.requires_approval());
    assert!(PermissionLevel::ExternalSideEffect.requires_approval());
}

#[test]
fn network_permission_needs_approval() {
    assert!(PermissionLevel::Network.requires_approval());
}

#[test]
fn department_profile_keeps_its_fields() {
    let d = DepartmentProfile::new("ops", "Ops", "keep things running");
    assert_eq!(d.key, "ops");
    assert_eq!(d.name, "Ops");
    assert_eq!(d.mission, "keep things running");
}

#[test]
fn capability_ref_keeps_source_and_name() {
    let r = CapabilityRef::new(CapabilitySource::Mcp, "fs:read");
    assert_eq!(r.source, CapabilitySource::Mcp);
    assert_eq!(r.name, "fs:read");
}

#[test]
fn approval_requirement_gates_all_but_never() {
    assert!(!ApprovalRequirement::Never.needs_gate());
    assert!(ApprovalRequirement::OnSideEffect.needs_gate());
    assert!(ApprovalRequirement::Always.needs_gate());
}

#[test]
fn empty_schema_is_null() {
    let _e = Empty::new();
    assert_eq!(Empty::schema().data, "null");
    assert_eq!(Schema::new("{}".to_string()).data, "{}");
}

#[test]
fn default_metadata_is_builtin_and_ungated() {
    let m = CapabilityMetadata::default();
    assert!(!m.approval.needs_gate());
    assert!(m.tags.is_empty());
}

#[test]
fn new_session_is_planning() {
    let s = Session::new("write docs");
    assert_eq!(s.objective, "write docs");
    assert_eq!(s.phase, SessionPhase::Planning);
    assert!(s.created_at > 0);
}

#[test]
fn sessions_get_distinct_ids() {
    let a = Session::new("a");
    let b = Session::new("b");
    assert_ne!(a.id, b.id);
}

#[test]
fn status_counts_add_up_to_node_count() {
    let mut a = TaskNode::new("a", "a", "engineering", CapabilityRef::new(CapabilitySource::Builtin, "planner"));
    let b = TaskNode::new("b", "b", "engineering", CapabilityRef::new(CapabilitySource::Builtin, "planner"));
    let mut c = TaskNode::new("c", "c", "research", CapabilityRef::new(CapabilitySource::Builtin, "planner"));
    a.status = TaskStatus::Running;
    c.status = TaskStatus::Done;
    let graph = TaskGraph::new(a.id, vec![a, b, c]);
    let counts = graph.status_counts();
    let mut total = 0;
    for s in TaskStatus::all() {
        total += counts.get(s);
    }
    assert_eq!(total, 3);
    assert_eq!(counts.get(TaskStatus::Running), 1);
    assert_eq!(counts.get(TaskStatus::Queued), 1);
    assert_eq!(counts.get(TaskStatus::Done), 1);
    assert_eq!(counts.get(TaskStatus::Failed), 0);
}

#[test]
fn depends_on_adds_dependency() {
    let a = TaskNode::new("a", "a", "engineering", CapabilityRef::new(CapabilitySource::Builtin, "planner"));
    let b = TaskNode::new("b", "b", "engineering", CapabilityRef::new(CapabilitySource::Builtin, "planner"))
        .depends_on(a.id);
    assert_eq!(b.dependencies, vec![a.id]);
}

#[test]
fn runtime_event_keeps_session_and_kind() {
    let s = Session::new("x");
    let e = RuntimeEvent::new(s.id, None, RuntimeEventKind::PhaseChanged { phase: SessionPhase::Executing });
    assert_eq!(e.session_id, s.id);
    assert_eq!(e.task_id, None);
    assert!(matches!(e.kind, RuntimeEventKind::PhaseChanged { phase: SessionPhase::Executing }));
}
