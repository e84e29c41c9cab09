use crabot::api::{event_kind_type, graph_edges, parse_source, ApiError};
use crabot::domain::{
    CapabilityRef, CapabilitySource, RuntimeEvent, RuntimeEventKind, Session, SessionPhase,
    TaskGraph, TaskNode,
};
use crabot::runtime::Runtime;
use crabot::service::RuntimeService;
use crabot::domain::TaskStatus;
use crabot::store::{
    parse_capability_source, parse_session_phase, parse_task_status, CapabilityConfig, MemoryStore,
    StoreError,
};

#[test]
fn saves_and_loads_session_graph_and_events() {
    let mut store = MemoryStore::new();
    let session = Session::new("build persistence");
    let node = TaskNode::new(
        "plan",
        "persist plan",
        "engineering",
        CapabilityRef::new(CapabilitySource::Builtin, "planner"),
    );
    let graph = TaskGraph::new(node.id, vec![node]);
    let event = RuntimeEvent::new(
        session.id,
        None,
        RuntimeEventKind::SessionCreated {
            objective: session.objective.clone(),
        },
    );

    store.save_snapshot(&session, &graph, &[event]);

    let sessions = store.list_sessions();
    assert_eq!(sessions.len(), 1);
    assert_eq!(sessions[0].node_count, 1);
    assert_eq!(sessions[0].event_count, 1);
    assert!(store.get_graph(session.id).is_some());
    assert_eq!(store.list_events(session.id, None, 10)[0].seq, 1);
}

#[test]
fn upserts_capability_config() {
    let mut store = MemoryStore::new();
    let config = CapabilityConfig {
        source: CapabilitySource::Builtin,
        name: "planner".to_string(),
        enabled: false,
        approval_override: Some("always".to_string()),
        config: "{\"mode\":\"safe\"}".to_string(),
        updated_at: 0,
    };

    store.upsert_capability_config(config.clone());
    assert_eq!(store.list_capability_configs()[0].enabled, false);
}

#[test]
fn upsert_replaces_config_of_same_source_and_name() {
    let mut store = MemoryStore::new();
    let mk = |source: CapabilitySource, name: &str, enabled: bool| CapabilityConfig {
        source,
        name: name.to_string(),
        enabled,
        approval_override: None,
        config: "{}".to_string(),
        updated_at: 0,
    };
    store.upsert_capability_config(mk(CapabilitySource::Skill, "architect", true));
    store.upsert_capability_config(mk(CapabilitySource::Builtin, "planner", true));
    store.upsert_capability_config(mk(CapabilitySource::Builtin, "planner", false));
    let all = store.list_capability_configs();
    assert_eq!(all.len(), 2);
    assert_eq!(all[0].source, CapabilitySource::Builtin);
    assert_eq!(all[0].enabled, false);
    assert_eq!(all[1].name, "architect");
}

#[test]
fn events_are_numbered_and_listed_in_windows() {
    let mut store = MemoryStore::new();
    let session = Session::new("log");
    let node = TaskNode::new("t", "g", "ops", CapabilityRef::new(CapabilitySource::Builtin, "planner"));
    let graph = TaskGraph::new(node.id, vec![node]);
    store.save_session(&session, &graph);
    let mk = |phase: SessionPhase| RuntimeEvent::new(session.id, None, RuntimeEventKind::PhaseChanged { phase });
    let first = store.append_events(session.id, &[mk(SessionPhase::Planning), mk(SessionPhase::Approval)]);
    assert_eq!(first[0].seq, 1);
    assert_eq!(first[1].seq, 2);
    let second = store.append_events(session.id, &[mk(SessionPhase::Executing)]);
    assert_eq!(second[0].seq, 3);
    let all = store.list_events(session.id, None, 100);
    assert_eq!(all.iter().map(|e| e.seq).collect::<Vec<_>>(), vec![1, 2, 3]);
    let window = store.list_events(session.id, Some(1), 1);
    assert_eq!(window.iter().map(|e| e.seq).collect::<Vec<_>>(), vec![2]);
    let after_first = store.list_events(session.id, Some(2), 10);
    assert_eq!(after_first.iter().map(|e| e.seq).collect::<Vec<_>>(), vec![3]);
    let zero_limit = store.list_events(session.id, None, 0);
    assert_eq!(zero_limit.len(), 1);
    assert!(store.list_events(session.id, Some(3), 10).is_empty());
    assert!(store.list_events(7, None, 10).is_empty());
}

#[test]
fn saving_again_bumps_graph_version() {
    let mut store = MemoryStore::new();
    let session = Session::new("versions");
    let node = TaskNode::new("t", "g", "ops", CapabilityRef::new(CapabilitySource::Builtin, "planner"));
    let graph = TaskGraph::new(node.id, vec![node]);
    store.save_session(&session, &graph);
    assert_eq!(store.get_session(session.id).unwrap().current_graph_version, 1);
    store.save_session(&session, &graph);
    let rec = store.get_session(session.id).unwrap();
    assert_eq!(rec.current_graph_version, 2);
    assert!(rec.updated_at > 0);
    assert!(store.get_session(session.id.wrapping_add(1)).is_none());
}

#[test]
fn session_without_graph_is_refused() {
    let mut store = MemoryStore::new();
    let session = Session::new("no graph");
    assert_eq!(store.save_session_with(&session, None), Err(StoreError::GraphRequired));
    assert!(store.list_sessions().is_empty());
    assert_eq!(
        StoreError::GraphRequired.message(),
        "graph is required for this storage implementation"
    );
}

#[test]
fn sessions_listed_newest_first() {
    let mut store = MemoryStore::new();
    let node = TaskNode::new("t", "g", "ops", CapabilityRef::new(CapabilitySource::Builtin, "planner"));
    let graph = TaskGraph::new(node.id, vec![node]);
    let mut a = Session::new("a");
    a.created_at = 10;
    let mut b = Session::new("b");
    b.created_at = 20;
    store.save_session(&a, &graph);
    store.save_session(&b, &graph);
    let listed = store.list_sessions();
    assert_eq!(listed[0].session.objective, "b");
    assert_eq!(listed[1].session.objective, "a");
}

#[test]
fn service_creates_plan_and_replays_it() {
    let mut service = RuntimeService::new(Runtime::default(), MemoryStore::new());
    assert!(service.store().room_for(3));
    let persisted = service.create_session_plan("ship it").unwrap();
    let id = persisted.snapshot.session.id;
    assert_eq!(persisted.stored_events.len(), 3);
    assert_eq!(service.load_graph(id).unwrap().nodes.len(), 4);
    assert_eq!(service.list_events(id, None, 50).len(), 3);
    let frames = service.replay(id, None);
    assert_eq!(frames.len(), 3);
    assert_eq!(service.list_sessions().len(), 1);
}

#[test]
fn service_lists_capabilities_with_config() {
    let mut service = RuntimeService::new(Runtime::default(), MemoryStore::new());
    let before = service.list_capabilities();
    assert!(before.iter().any(|c| c.reference.name == "planner" && c.enabled));
    service.update_capability_config(
        CapabilitySource::Builtin,
        "planner".to_string(),
        false,
        Some("always".to_string()),
        "{}".to_string(),
    );
    let after = service.list_capabilities();
    let planner = after.iter().find(|c| c.reference.name == "planner").unwrap();
    assert!(!planner.enabled);
    assert_eq!(planner.approval_override.as_deref(), Some("always"));
}

#[test]
fn parses_capability_sources() {
    assert_eq!(parse_source("builtin"), Ok(CapabilitySource::Builtin));
    assert_eq!(parse_source("Mcp"), Ok(CapabilitySource::Mcp));
    assert_eq!(parse_source("agent"), Ok(CapabilitySource::Agent));
    assert_eq!(parse_source("AGENT"), Err(ApiError::bad_request("unknown capability source")));
}

#[test]
fn api_errors_carry_status() {
    assert_eq!(ApiError::not_found("x").status, 404);
    assert_eq!(ApiError::bad_request("x").status, 400);
    assert_eq!(ApiError::internal("boom".to_string()).status, 500);
}

#[test]
fn event_types_and_graph_edges() {
    assert_eq!(
        event_kind_type(&RuntimeEventKind::PhaseChanged { phase: SessionPhase::Planning }),
        "phase.changed"
    );
    let a = TaskNode::new("a", "a", "ops", CapabilityRef::new(CapabilitySource::Builtin, "planner"));
    let b = TaskNode::new("b", "b", "ops", CapabilityRef::new(CapabilitySource::Builtin, "planner")).depends_on(a.id);
    let (ida, idb) = (a.id, b.id);
    let graph = TaskGraph::new(ida, vec![a, b]);
    assert_eq!(graph_edges(&graph), vec![(ida, idb)]);
}

#[test]
fn stored_names_parse_to_variants() {
    assert_eq!(parse_session_phase("Executing"), Ok(SessionPhase::Executing));
    assert_eq!(parse_task_status("WaitingApproval"), Ok(TaskStatus::WaitingApproval));
    assert_eq!(parse_capability_source("Mcp"), Ok(CapabilitySource::Mcp));
    let err = parse_session_phase("planning").unwrap_err();
    assert_eq!(
        err.message(),
        "unknown variant `planning`, expected one of `Intake`, `Planning`, `Approval`, `Executing`, `Reviewing`, `Completed`, `Failed`"
    );
    assert!(matches!(err, StoreError::UnknownVariant { .. }));
    assert!(parse_task_status("").is_err());
    assert!(parse_capability_source("builtin").is_err());
}

#[test]
fn events_rebuilt_from_stored_parts() {
    let e = crabot::store::runtime_event_from_parts(
        5,
        Some(6),
        1_700_000_000_000_000,
        RuntimeEventKind::Error { message: "boom".to_string() },
    );
    assert_eq!(e.session_id, 5);
    assert_eq!(e.task_id, Some(6));
    assert_eq!(e.at, 1_700_000_000_000_000);
    assert!(matches!(e.kind, RuntimeEventKind::Error { .. }));
    let r = crabot::store::capability_ref(CapabilitySource::Plugin, "lint");
    assert_eq!(r, CapabilityRef::new(CapabilitySource::Plugin, "lint"));
}

#[test]
fn records_count_saves_and_appended_events() {
    let mut store = MemoryStore::new();
    let a = Session::new("a");
    let b = Session::new("b");
    let n1 = TaskNode::new("t", "g", "ops", CapabilityRef::new(CapabilitySource::Builtin, "planner"));
    let n2 = TaskNode::new("u", "g", "ops", CapabilityRef::new(CapabilitySource::Builtin, "planner"));
    let one = TaskGraph::new(n1.id, vec![n1.clone()]);
    let two = TaskGraph::new(n1.id, vec![n1, n2]);
    store.save_session(&a, &one);
    store.save_session(&b, &one);
    let ev = |id: u128| RuntimeEvent::new(id, None, RuntimeEventKind::Message { role: "user".to_string(), content: "hi".to_string() });
    store.append_events(a.id, &[ev(a.id), ev(a.id)]);
    store.save_session(&a, &two);
    store.append_events(a.id, &[ev(a.id)]);
    let rec = store.get_session(a.id).unwrap();
    assert_eq!(rec.current_graph_version, 2);
    assert_eq!(rec.node_count, 2);
    assert_eq!(rec.event_count, 3);
    let other = store.get_session(b.id).unwrap();
    assert_eq!(other.current_graph_version, 1);
    assert_eq!(other.event_count, 0);
    assert_eq!(store.list_sessions().len(), 2);
}
