//! The runtime: its configuration, the default plan, slash commands and replay.
use vstd::prelude::*;

use crate::domain::{
    default_departments, source_name, CapabilityRef, CapabilityRefView, CapabilitySource,
    CompanyProfile, CompanyProfileView, RuntimeEvent, RuntimeEventKind, RuntimeEventKindView,
    RuntimeEventView, Session, SessionPhase, SessionView, TaskGraph, TaskGraphView, TaskId,
    TaskNode, TaskNodeView, TaskStatus,
};
use crate::index::inserted_by;
use crate::registry::{
    builtin_descriptor, descriptor_key, CapabilityDescriptor, CapabilityDescriptorView,
    CapabilityRegistry,
};
use crate::skills::{
    command_error_message, default_command_views, default_skill_catalog, default_skill_views,
    parse_spec, CommandError, SkillCatalog, SkillManifest, SkillManifestView, SlashCommandKind,
};
use crate::text::{join_lines, join_with, owned};

verus! {

pub struct RuntimeConfigView {
    pub company: CompanyProfileView,
    pub max_parallel_tasks: nat,
}

#[derive(Debug)]
pub struct RuntimeConfig {
    pub company: CompanyProfile,
    pub max_parallel_tasks: usize,
}

impl View for RuntimeConfig {
    type V = RuntimeConfigView;

    open spec fn view(&self) -> RuntimeConfigView {
        RuntimeConfigView {
            company: self.company@,
            max_parallel_tasks: self.max_parallel_tasks as nat,
        }
    }
}

impl Default for RuntimeConfig {
    fn default() -> (r: Self)
        ensures
            r@ == (RuntimeConfigView {
                company: CompanyProfileView { name: "crabot"@, departments: default_departments() },
                max_parallel_tasks: 4,
            }),
    {
        RuntimeConfig { company: CompanyProfile::default(), max_parallel_tasks: 4 }
    }
}

/// The two built-in capabilities every runtime starts with.
pub open spec fn default_descriptors() -> Seq<CapabilityDescriptorView> {
    inserted_by(
        inserted_by(
            Seq::empty(),
            builtin_descriptor("planner"@, "生成可观察、可恢复的 Task DAG"@),
            descriptor_key(),
        ),
        builtin_descriptor("scorecard"@, "基于完成率、质量、效率、协作生成运行评分"@),
        descriptor_key(),
    )
}

pub struct BootstrapSummary {
    pub company: CompanyProfile,
    pub command_count: usize,
    pub skill_count: usize,
    pub capability_count: usize,
}

pub struct RuntimeSnapshotView {
    pub session: SessionView,
    pub graph: Option<TaskGraphView>,
    pub events: Seq<RuntimeEventView>,
}

/// A planned session: the session, its task graph and the events that planning raised.
#[derive(Debug)]
pub struct RuntimeSnapshot {
    pub session: Session,
    pub graph: Option<TaskGraph>,
    pub events: Vec<RuntimeEvent>,
}

pub open spec fn opt_graph_view(g: Option<TaskGraph>) -> Option<TaskGraphView> {
    match g {
        Some(g) => Some(g@),
        None => None,
    }
}

impl View for RuntimeSnapshot {
    type V = RuntimeSnapshotView;

    open spec fn view(&self) -> RuntimeSnapshotView {
        RuntimeSnapshotView {
            session: self.session@,
            graph: opt_graph_view(self.graph),
            events: self.events@.map_values(|e: RuntimeEvent| e@),
        }
    }
}

/// A queued task without artifacts.
pub open spec fn task_view(
    id: TaskId,
    title: Seq<char>,
    goal: Seq<char>,
    department: Seq<char>,
    assignee: CapabilityRefView,
    dependencies: Seq<TaskId>,
) -> TaskNodeView {
    TaskNodeView {
        id,
        title,
        goal,
        department,
        assignee,
        dependencies,
        status: TaskStatus::Queued,
        artifacts: Seq::empty(),
    }
}

/// The four-step plan for `objective`: analyse, plan, match tools, review; each step
/// depends on the one before, and the first is the root.
pub open spec fn is_default_graph(g: TaskGraphView, objective: Seq<char>) -> bool {
    let n = g.nodes;
    &&& n.len() == 4
    &&& g.root_task == n[0].id
    &&& n[0] == task_view(
        n[0].id,
        "分析目标与边界"@,
        "识别任务目标、风险、资源和验收标准："@ + objective,
        "research"@,
        CapabilityRefView { source: CapabilitySource::Agent, name: "ceo-router"@ },
        Seq::empty(),
    )
    &&& n[1] == task_view(
        n[1].id,
        "生成执行 DAG"@,
        "将目标拆成可观察、可审批、可恢复的任务图"@,
        "engineering"@,
        CapabilityRefView { source: CapabilitySource::Builtin, name: "planner"@ },
        seq![n[0].id],
    )
    &&& n[2] == task_view(
        n[2].id,
        "匹配 Skills / Tools / MCP"@,
        "为每个任务节点选择内置工具、插件工具或 MCP 工具，并标记审批策略"@,
        "ops"@,
        CapabilityRefView { source: CapabilitySource::Skill, name: "toolsmith"@ },
        seq![n[1].id],
    )
    &&& n[3] == task_view(
        n[3].id,
        "汇总结果与评分"@,
        "生成最终答复、artifacts 和 scorecard"@,
        "ops"@,
        CapabilityRefView { source: CapabilitySource::Builtin, name: "scorecard"@ },
        seq![n[2].id],
    )
}

/// A planned session for `objective`: in the planning phase, with the default graph and
/// three events of the session (created, phase changed to planning, plan of four tasks).
pub open spec fn is_plan_of(s: RuntimeSnapshotView, objective: Seq<char>) -> bool {
    &&& s.session.objective == objective
    &&& s.session.phase == SessionPhase::Planning
    &&& s.graph matches Some(g) && is_default_graph(g, objective)
    &&& s.events.len() == 3
    &&& forall|i: int| 0 <= i < 3 ==> (#[trigger] s.events[i]).session_id == s.session.id
        && s.events[i].task_id is None
    &&& s.events[0].kind == RuntimeEventKindView::SessionCreated { objective }
    &&& s.events[1].kind == RuntimeEventKindView::PhaseChanged { phase: SessionPhase::Planning }
    &&& s.events[2].kind == RuntimeEventKindView::PlanCreated { node_count: 4 }
}

/// The line that `/tools` prints for a capability.
pub open spec fn tool_line(d: CapabilityDescriptorView) -> Seq<char> {
    "- "@ + d.reference.name + " ("@ + source_name(d.reference.source) + ") — "@ + d.description
}

/// The line that `/skills` prints for a skill.
pub open spec fn skill_line(s: SkillManifestView) -> Seq<char> {
    "- /"@ + s.name + " — "@ + s.description
}

pub open spec fn tools_text(ds: Seq<CapabilityDescriptorView>) -> Seq<char> {
    join_with(ds.map_values(|d: CapabilityDescriptorView| tool_line(d)), "\n"@)
}

pub open spec fn skills_text(ss: Seq<SkillManifestView>) -> Seq<char> {
    join_with(ss.map_values(|s: SkillManifestView| skill_line(s)), "\n"@)
}

pub open spec fn status_text() -> Seq<char> {
    "runtime: ready\nphase: waiting for objective\nplanner: available\ncapability registry: online"@
}

pub open spec fn skill_accepted_text(command: Seq<char>) -> Seq<char> {
    "skill /"@ + command + " accepted; execution will be routed through planner runtime"@
}

/// What a slash command gives back.
#[derive(Debug)]
pub enum RuntimeCommandResult {
    Text(String),
    Snapshot(RuntimeSnapshot),
}

/// Why a slash command gave nothing back.
#[derive(Debug, PartialEq, Eq)]
pub enum RuntimeError {
    /// The line is not a registered command.
    Command(CommandError),
    /// `/run` is not served yet.
    RunNotReady,
    /// `/approve` and `/reject` are not served yet.
    ApprovalNotActive,
    /// `/replay` is not served here.
    ReplayNotReady,
}

pub open spec fn runtime_error_message(e: RuntimeError) -> Seq<char> {
    match e {
        RuntimeError::Command(c) => command_error_message(c),
        RuntimeError::RunNotReady => "/run will execute a persisted plan in the next runtime phase"@,
        RuntimeError::ApprovalNotActive => "approval queue is not active yet"@,
        RuntimeError::ReplayNotReady => "session replay requires storage/event-log phase"@,
    }
}

impl RuntimeError {
    /// The message the error reads as.
    pub fn message(&self) -> (r: String)
        ensures
            r@ == runtime_error_message(*self),
    {
        match self {
            RuntimeError::Command(c) => c.message(),
            RuntimeError::RunNotReady => owned(
                "/run will execute a persisted plan in the next runtime phase",
            ),
            RuntimeError::ApprovalNotActive => owned("approval queue is not active yet"),
            RuntimeError::ReplayNotReady => owned("session replay requires storage/event-log phase"),
        }
    }
}

/// The company, its skills and commands, and its capabilities.
pub struct Runtime {
    pub config: RuntimeConfig,
    pub skills: SkillCatalog,
    pub capabilities: CapabilityRegistry,
}

impl Runtime {
    pub open spec fn wf(&self) -> bool {
        self.skills.wf() && self.capabilities.wf()
    }

    /// A runtime with the default skill catalog and the `planner` and `scorecard` built-ins.
    pub fn new(config: RuntimeConfig) -> (r: Self)
        ensures
            r.wf(),
            r.config@ == config@,
            r.skills.skills_view() == default_skill_views(),
            r.skills.commands_view() == default_command_views(),
            r.capabilities.descriptors() == default_descriptors(),
    {
        let mut capabilities = CapabilityRegistry::new();
        capabilities.register(
            CapabilityDescriptor::builtin("planner", "生成可观察、可恢复的 Task DAG"),
        );
        capabilities.register(
            CapabilityDescriptor::builtin("scorecard", "基于完成率、质量、效率、协作生成运行评分"),
        );
        Runtime { config, skills: default_skill_catalog(), capabilities }
    }

    /// The company and how many commands, skills and capabilities are registered.
    pub fn bootstrap_summary(&self) -> (r: BootstrapSummary)
        ensures
            r.company@ == self.config.company@,
            r.command_count == self.skills.commands_view().len(),
            r.skill_count == self.skills.skills_view().len(),
            r.capability_count == self.capabilities.descriptors().len(),
    {
        BootstrapSummary {
            company: self.config.company.clone(),
            command_count: self.skills.commands().len(),
            skill_count: self.skills.skills().len(),
            capability_count: self.capabilities.list().len(),
        }
    }

    /// A new session for `objective`, in the planning phase, with the default task graph
    /// and the events of its creation.
    pub fn plan(&self, objective: &str) -> (r: RuntimeSnapshot)
        ensures
            is_plan_of(r@, objective@),
    {
        let mut session = Session::new(objective);
        session.phase = SessionPhase::Planning;
        let mut events: Vec<RuntimeEvent> = Vec::new();
        events.push(
            RuntimeEvent::new(
                session.id,
                None,
                RuntimeEventKind::SessionCreated { objective: owned(objective) },
            ),
        );
        events.push(
            RuntimeEvent::new(
                session.id,
                None,
                RuntimeEventKind::PhaseChanged { phase: SessionPhase::Planning },
            ),
        );
        let graph = self.default_task_graph(objective);
        events.push(
            RuntimeEvent::new(
                session.id,
                None,
                RuntimeEventKind::PlanCreated { node_count: graph.nodes.len() },
            ),
        );
        let r = RuntimeSnapshot { session, graph: Some(graph), events };
        assert(r@.events[0] == events@[0]@);
        assert(r@.events[1] == events@[1]@);
        assert(r@.events[2] == events@[2]@);
        r
    }

    /// Answers a slash command: `/plan` plans its arguments, `/tools`, `/skills` and
    /// `/status` describe the runtime, a skill command is accepted, and `/run`,
    /// `/approve`, `/reject` and `/replay` are refused.
    pub fn handle_slash_command(&self, input: &str) -> (r: Result<RuntimeCommandResult, RuntimeError>)
        requires
            self.wf(),
        ensures
            match parse_spec(self.skills.commands_view(), input@) {
                Err(None) => r == Err::<RuntimeCommandResult, RuntimeError>(
                    RuntimeError::Command(CommandError::MissingSlash),
                ),
                Err(Some(command)) => r matches Err(RuntimeError::Command(CommandError::Unknown { command: c }))
                    && c@ == command,
                Ok(inv) => match inv.kind {
                    SlashCommandKind::Plan => r matches Ok(RuntimeCommandResult::Snapshot(s))
                        && is_plan_of(s@, inv.args),
                    SlashCommandKind::Tools => r matches Ok(RuntimeCommandResult::Text(t)) && t@
                        == tools_text(self.capabilities.descriptors()),
                    SlashCommandKind::Skills => r matches Ok(RuntimeCommandResult::Text(t)) && t@
                        == skills_text(self.skills.skills_view()),
                    SlashCommandKind::Status => r matches Ok(RuntimeCommandResult::Text(t)) && t@
                        == status_text(),
                    SlashCommandKind::Run => r == Err::<RuntimeCommandResult, RuntimeError>(
                        RuntimeError::RunNotReady,
                    ),
                    SlashCommandKind::Approve | SlashCommandKind::Reject => r == Err::<
                        RuntimeCommandResult,
                        RuntimeError,
                    >(RuntimeError::ApprovalNotActive),
                    SlashCommandKind::Replay => r == Err::<RuntimeCommandResult, RuntimeError>(
                        RuntimeError::ReplayNotReady,
                    ),
                    SlashCommandKind::Skill => r matches Ok(RuntimeCommandResult::Text(t)) && t@
                        == skill_accepted_text(inv.command),
                },
            },
    {
        let invocation = match self.skills.parse(input) {
            Ok(invocation) => invocation,
            Err(e) => {
                return Err(RuntimeError::Command(e));
            },
        };
        match invocation.kind {
            SlashCommandKind::Plan => {
                let snapshot = self.plan(invocation.args.as_str());
                Ok(RuntimeCommandResult::Snapshot(snapshot))
            },
            SlashCommandKind::Tools => Ok(RuntimeCommandResult::Text(self.tools_listing())),
            SlashCommandKind::Skills => Ok(RuntimeCommandResult::Text(self.skills_listing())),
            SlashCommandKind::Status => Ok(
                RuntimeCommandResult::Text(
                    owned(
                        "runtime: ready\nphase: waiting for objective\nplanner: available\ncapability registry: online",
                    ),
                ),
            ),
            SlashCommandKind::Run => Err(RuntimeError::RunNotReady),
            SlashCommandKind::Approve | SlashCommandKind::Reject => Err(
                RuntimeError::ApprovalNotActive,
            ),
            SlashCommandKind::Replay => Err(RuntimeError::ReplayNotReady),
            SlashCommandKind::Skill => {
                let mut text = owned("skill /");
                text.append(invocation.command.as_str());
                text.append(" accepted; execution will be routed through planner runtime");
                Ok(RuntimeCommandResult::Text(text))
            },
        }
    }

    /// One line per capability, in ascending order of name.
    fn tools_listing(&self) -> (r: String)
        ensures
            r@ == tools_text(self.capabilities.descriptors()),
    {
        let list = self.capabilities.list();
        let ghost ds = self.capabilities.descriptors();
        let mut lines: Vec<String> = Vec::new();
        let mut i: usize = 0;
        while i < list.len()
            invariant
                i <= list@.len(),
                list@.map_values(|d: CapabilityDescriptor| d@) == ds,
                lines@.len() == i,
                forall|k: int| 0 <= k < i ==> (#[trigger] lines@[k])@ == tool_line(ds[k]),
            decreases list.len() - i,
        {
            let d = &list[i];
            let mut line = owned("- ");
            line.append(d.reference.name.as_str());
            line.append(" (");
            line.append(d.reference.source.name());
            line.append(") — ");
            line.append(d.description.as_str());
            assert(ds[i as int] == d@);
            lines.push(line);
            i = i + 1;
        }
        assert(lines@.map_values(|l: String| l@) =~= ds.map_values(
            |d: CapabilityDescriptorView| tool_line(d),
        ));
        join_lines(&lines, "\n")
    }

    /// One line per skill, in ascending order of name.
    fn skills_listing(&self) -> (r: String)
        ensures
            r@ == skills_text(self.skills.skills_view()),
    {
        let list = self.skills.skills();
        let ghost ss = self.skills.skills_view();
        let mut lines: Vec<String> = Vec::new();
        let mut i: usize = 0;
        while i < list.len()
            invariant
                i <= list@.len(),
                list@.map_values(|s: SkillManifest| s@) == ss,
                lines@.len() == i,
                forall|k: int| 0 <= k < i ==> (#[trigger] lines@[k])@ == skill_line(ss[k]),
            decreases list.len() - i,
        {
            let s = &list[i];
            let mut line = owned("- /");
            line.append(s.name.as_str());
            line.append(" — ");
            line.append(s.description.as_str());
            assert(ss[i as int] == s@);
            lines.push(line);
            i = i + 1;
        }
        assert(lines@.map_values(|l: String| l@) =~= ss.map_values(
            |s: SkillManifestView| skill_line(s),
        ));
        join_lines(&lines, "\n")
    }

    /// The four tasks of the default plan for `objective`, each depending on the one before.
    fn default_task_graph(&self, objective: &str) -> (r: TaskGraph)
        ensures
            is_default_graph(r@, objective@),
    {
        let mut goal = owned("识别任务目标、风险、资源和验收标准：");
        goal.append(objective);
        let intake = TaskNode::new(
            "分析目标与边界",
            goal.as_str(),
            "research",
            CapabilityRef::new(CapabilitySource::Agent, "ceo-router"),
        );
        let planner = TaskNode::new(
            "生成执行 DAG",
            "将目标拆成可观察、可审批、可恢复的任务图",
            "engineering",
            CapabilityRef::new(CapabilitySource::Builtin, "planner"),
        ).depends_on(intake.id);
        let tools = TaskNode::new(
            "匹配 Skills / Tools / MCP",
            "为每个任务节点选择内置工具、插件工具或 MCP 工具，并标记审批策略",
            "ops",
            CapabilityRef::new(CapabilitySource::Skill, "toolsmith"),
        ).depends_on(planner.id);
        let review = TaskNode::new(
            "汇总结果与评分",
            "生成最终答复、artifacts 和 scorecard",
            "ops",
            CapabilityRef::new(CapabilitySource::Builtin, "scorecard"),
        ).depends_on(tools.id);
        let root = intake.id;
        let mut nodes: Vec<TaskNode> = Vec::new();
        nodes.push(intake);
        nodes.push(planner);
        nodes.push(tools);
        nodes.push(review);
        let r = TaskGraph::new(root, nodes);
        assert(Seq::<TaskId>::empty().push(r@.nodes[0].id) =~= seq![r@.nodes[0].id]);
        assert(Seq::<TaskId>::empty().push(r@.nodes[1].id) =~= seq![r@.nodes[1].id]);
        assert(Seq::<TaskId>::empty().push(r@.nodes[2].id) =~= seq![r@.nodes[2].id]);
        r
    }
}

impl Default for Runtime {
    fn default() -> (r: Self)
        ensures
            r.wf(),
            r.config@.max_parallel_tasks == 4,
            r.config@.company == (CompanyProfileView {
                name: "crabot"@,
                departments: default_departments(),
            }),
            r.skills.skills_view() == default_skill_views(),
            r.skills.commands_view() == default_command_views(),
            r.capabilities.descriptors() == default_descriptors(),
    {
        Runtime::new(RuntimeConfig::default())
    }
}

} // verus!
