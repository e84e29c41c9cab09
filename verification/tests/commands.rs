use crabot::domain::{CapabilitySource, RuntimeEvent, RuntimeEventKind, Session, SessionPhase, TaskStatus};
use crabot::mcp::{McpServerDefinition, McpToolDefinition};
use crabot::naming::to_snake_case;
use crabot::plugins::PermissionLevel;
use crabot::registry::{CapabilityDescriptor, CapabilityRegistry};
use crabot::replay::{fold_replay, StoredRuntimeEvent};
use crabot::runtime::{Runtime, RuntimeCommandResult, RuntimeError};
use crabot::skills::{
    builtin_commands, default_skill_catalog, CommandError, SkillCatalog, SlashCommand,
    SlashCommandKind,
};

#[test]
fn parses_builtin_command() {
    let catalog = SkillCatalog::with_builtin_commands();
    let invocation = catalog.parse("/plan build a tool").unwrap();
    assert_eq!(invocation.command, "plan");
    assert_eq!(invocation.args, "build a tool");
    assert_eq!(invocation.kind, SlashCommandKind::Plan);
}

#[test]
fn registers_skill_alias_as_command() {
    let catalog = default_skill_catalog();
    let invocation = catalog.parse("/design hello").unwrap();
    assert_eq!(invocation.kind, SlashCommandKind::Skill);
}

#[test]
fn parse_refuses_line_without_slash() {
    let catalog = SkillCatalog::with_builtin_commands();
    assert_eq!(catalog.parse("plan it").unwrap_err(), CommandError::MissingSlash);
    assert_eq!(catalog.parse("   ").unwrap_err(), CommandError::MissingSlash);
}

#[test]
fn parse_names_unknown_command() {
    let catalog = SkillCatalog::with_builtin_commands();
    assert_eq!(
        catalog.parse("/dance now").unwrap_err(),
        CommandError::Unknown { command: "dance".to_string() }
    );
}

#[test]
fn parse_trims_and_skips_repeated_slashes() {
    let catalog = SkillCatalog::with_builtin_commands();
    let invocation = catalog.parse("  //tools  ").unwrap();
    assert_eq!(invocation.command, "tools");
    assert_eq!(invocation.args, "");
    assert_eq!(invocation.kind, SlashCommandKind::Tools);
}

#[test]
fn registered_command_parses() {
    let mut catalog = SkillCatalog::new();
    catalog.register_command(SlashCommand {
        name: "deploy".to_string(),
        description: "ship it".to_string(),
        kind: SlashCommandKind::Run,
    });
    let invocation = catalog.parse("/deploy now please").unwrap();
    assert_eq!(invocation.kind, SlashCommandKind::Run);
    assert_eq!(invocation.args, "now please");
}

#[test]
fn builtin_commands_are_listed() {
    let names: Vec<String> = builtin_commands().into_iter().map(|c| c.name).collect();
    assert!(names.contains(&"plan".to_string()));
    assert!(names.contains(&"tools".to_string()));
}

#[test]
fn plans_default_task_graph() {
    let runtime = Runtime::default();
    let snapshot = runtime.plan("build skill support");
    let graph = snapshot.graph.unwrap();
    assert_eq!(graph.nodes.len(), 4);
    assert_eq!(snapshot.events.len(), 3);
}

#[test]
fn lists_builtin_tools_from_slash_command() {
    let runtime = Runtime::default();
    let result = runtime.handle_slash_command("/tools").unwrap();
    match result {
        RuntimeCommandResult::Text(text) => assert!(text.contains("planner")),
        RuntimeCommandResult::Snapshot(_) => panic!("expected text"),
    }
}

#[test]
fn slash_plan_gives_snapshot() {
    let runtime = Runtime::default();
    match runtime.handle_slash_command("/plan write docs").unwrap() {
        RuntimeCommandResult::Snapshot(s) => assert_eq!(s.session.objective, "write docs"),
        RuntimeCommandResult::Text(_) => panic!("expected snapshot"),
    }
}

#[test]
fn slash_commands_not_served_yet() {
    let runtime = Runtime::default();
    assert!(matches!(runtime.handle_slash_command("/run x"), Err(RuntimeError::RunNotReady)));
    assert!(matches!(runtime.handle_slash_command("/approve"), Err(RuntimeError::ApprovalNotActive)));
    assert!(matches!(runtime.handle_slash_command("/replay"), Err(RuntimeError::ReplayNotReady)));
    assert!(matches!(
        runtime.handle_slash_command("nothing"),
        Err(RuntimeError::Command(CommandError::MissingSlash))
    ));
}

#[test]
fn folds_phase_changes_into_replay_frames() {
    let session = Session::new("replay");
    let event = RuntimeEvent::new(
        session.id,
        None,
        RuntimeEventKind::PhaseChanged {
            phase: SessionPhase::Planning,
        },
    );
    let frames = fold_replay(None, vec![StoredRuntimeEvent::from_event(1, event)], None);
    assert_eq!(frames.len(), 1);
    assert_eq!(frames[0].phase, Some(SessionPhase::Planning));
}

#[test]
fn replay_gives_one_frame_per_event_and_stops_at_until() {
    let session = Session::new("replay");
    let mk = |seq: i64, kind: RuntimeEventKind| {
        StoredRuntimeEvent::from_event(seq, RuntimeEvent::new(session.id, None, kind))
    };
    let events = vec![
        mk(1, RuntimeEventKind::PhaseChanged { phase: SessionPhase::Planning }),
        mk(2, RuntimeEventKind::TaskStatusChanged { status: TaskStatus::Running }),
        mk(3, RuntimeEventKind::PhaseChanged { phase: SessionPhase::Executing }),
    ];
    let again = vec![
        mk(1, RuntimeEventKind::PhaseChanged { phase: SessionPhase::Planning }),
        mk(2, RuntimeEventKind::TaskStatusChanged { status: TaskStatus::Running }),
        mk(3, RuntimeEventKind::PhaseChanged { phase: SessionPhase::Executing }),
    ];
    let all = fold_replay(None, events, None);
    assert_eq!(all.len(), 3);
    assert_eq!(all[2].phase, Some(SessionPhase::Executing));
    assert_eq!(all[1].status_counts.get(TaskStatus::Running), 1);
    assert_eq!(all[1].phase, Some(SessionPhase::Planning));
    let upto = fold_replay(None, again, Some(2));
    assert_eq!(upto.len(), 2);
    assert_eq!(upto[1].seq, all[1].seq);
}

#[test]
fn registry_replaces_same_name() {
    let mut registry = CapabilityRegistry::new();
    registry.register(CapabilityDescriptor::builtin("planner", "plans"));
    registry.register(CapabilityDescriptor::builtin("planner", "plans better"));
    registry.register(CapabilityDescriptor::builtin("alpha", "first"));
    assert_eq!(registry.list().len(), 2);
    assert_eq!(registry.list()[0].reference.name, "alpha");
    assert_eq!(registry.get("planner").unwrap().description, "plans better");
    assert!(registry.get("missing").is_none());
}

#[test]
fn mcp_tools_register_read_only_and_qualified() {
    let mut registry = CapabilityRegistry::new();
    registry.register_mcp_server(&McpServerDefinition {
        name: "fs".to_string(),
        command: "mcp-fs".to_string(),
        args: vec![],
        env: vec![],
        tools: vec![McpToolDefinition {
            name: "read".to_string(),
            description: "reads".to_string(),
            input_schema: "{}".to_string(),
        }],
    });
    let d = registry.get("fs:read").unwrap();
    assert_eq!(d.permission, PermissionLevel::ReadOnly);
    assert_eq!(d.reference.source, CapabilitySource::Mcp);
}

#[test]
fn snake_case_of_camel_names() {
    assert_eq!(to_snake_case("HelloWorld"), "hello_world");
    assert_eq!(to_snake_case("printHelloWorld"), "print_hello_world");
    assert_eq!(to_snake_case("already_snake"), "already_snake");
    assert_eq!(to_snake_case(""), "");
}
