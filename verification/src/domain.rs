//! The domain model: company, departments, sessions, task graphs, capabilities and events.
use vstd::prelude::*;

use crate::clock::{fresh_id, now_nanos};
use crate::text::owned;

verus! {

/// Identifiers are 128-bit UUID values.
pub type SessionId = u128;

pub type TaskId = u128;

pub type EventId = u128;

/// Instants are nanoseconds since the Unix epoch (UTC), the precision of the clock.
pub type Timestamp = i64;

pub struct DepartmentProfileView {
    pub key: Seq<char>,
    pub name: Seq<char>,
    pub mission: Seq<char>,
}

#[derive(Debug, PartialEq, Eq)]
pub struct DepartmentProfile {
    pub key: String,
    pub name: String,
    pub mission: String,
}

impl View for DepartmentProfile {
    type V = DepartmentProfileView;

    open spec fn view(&self) -> DepartmentProfileView {
        DepartmentProfileView { key: self.key@, name: self.name@, mission: self.mission@ }
    }
}

impl DepartmentProfile {
    pub fn new(key: &str, name: &str, mission: &str) -> (r: Self)
        ensures
            r@ == (DepartmentProfileView { key: key@, name: name@, mission: mission@ }),
    {
        DepartmentProfile { key: owned(key), name: owned(name), mission: owned(mission) }
    }
}

impl Clone for DepartmentProfile {
    fn clone(&self) -> (r: Self)
        ensures
            r@ == self@,
    {
        DepartmentProfile {
            key: self.key.clone(),
            name: self.name.clone(),
            mission: self.mission.clone(),
        }
    }
}

pub struct CompanyProfileView {
    pub name: Seq<char>,
    pub departments: Seq<DepartmentProfileView>,
}

#[derive(Debug, PartialEq, Eq)]
pub struct CompanyProfile {
    pub name: String,
    pub departments: Vec<DepartmentProfile>,
}

impl View for CompanyProfile {
    type V = CompanyProfileView;

    open spec fn view(&self) -> CompanyProfileView {
        CompanyProfileView {
            name: self.name@,
            departments: self.departments@.map_values(|d: DepartmentProfile| d@),
        }
    }
}

/// The three departments a company starts with.
pub open spec fn default_departments() -> Seq<DepartmentProfileView> {
    seq![
        DepartmentProfileView {
            key: "research"@,
            name: "Research"@,
            mission: "搜索、调研、事实核查与资料整理"@,
        },
        DepartmentProfileView {
            key: "engineering"@,
            name: "Engineering"@,
            mission: "代码生成、重构、测试与交付"@,
        },
        DepartmentProfileView {
            key: "ops"@,
            name: "Ops / Support"@,
            mission: "工具执行、监控、日志、调度与外部集成"@,
        },
    ]
}

impl Default for CompanyProfile {
    fn default() -> (r: Self)
        ensures
            r@ == (CompanyProfileView { name: "crabot"@, departments: default_departments() }),
    {
        let mut departments = Vec::new();
        departments.push(
            DepartmentProfile::new("research", "Research", "搜索、调研、事实核查与资料整理"),
        );
        departments.push(
            DepartmentProfile::new("engineering", "Engineering", "代码生成、重构、测试与交付"),
        );
        departments.push(
            DepartmentProfile::new(
                "ops",
                "Ops / Support",
                "工具执行、监控、日志、调度与外部集成",
            ),
        );
        let r = CompanyProfile { name: owned("crabot"), departments };
        assert(r@.departments =~= default_departments());
        r
    }
}

impl Clone for CompanyProfile {
    fn clone(&self) -> (r: Self)
        ensures
            r@ == self@,
    {
        let mut departments: Vec<DepartmentProfile> = Vec::new();
        let mut i: usize = 0;
        while i < self.departments.len()
            invariant
                i <= self.departments@.len(),
                departments@.len() == i,
                forall|k: int| 0 <= k < i ==> (#[trigger] departments@[k])@ == self.departments@[k]@,
            decreases self.departments.len() - i,
        {
            departments.push(self.departments[i].clone());
            i = i + 1;
        }
        assert(departments@.map_values(|d: DepartmentProfile| d@) =~= self.departments@.map_values(|d: DepartmentProfile| d@));
        CompanyProfile { name: self.name.clone(), departments }
    }
}

/// Where a session stands.
#[derive(Debug, Clone, Copy, PartialEq, Eq, Structural)]
pub enum SessionPhase {
    Intake,
    Planning,
    Approval,
    Executing,
    Reviewing,
    Completed,
    Failed,
}

impl SessionPhase {
    /// The variant's name, as `{:?}` prints it.
    pub fn name(&self) -> (r: &'static str)
        ensures
            r@ == phase_name(*self),
    {
        match self {
            SessionPhase::Intake => "Intake",
            SessionPhase::Planning => "Planning",
            SessionPhase::Approval => "Approval",
            SessionPhase::Executing => "Executing",
            SessionPhase::Reviewing => "Reviewing",
            SessionPhase::Completed => "Completed",
            SessionPhase::Failed => "Failed",
        }
    }
}

pub open spec fn phase_name(p: SessionPhase) -> Seq<char> {
    match p {
        SessionPhase::Intake => "Intake"@,
        SessionPhase::Planning => "Planning"@,
        SessionPhase::Approval => "Approval"@,
        SessionPhase::Executing => "Executing"@,
        SessionPhase::Reviewing => "Reviewing"@,
        SessionPhase::Completed => "Completed"@,
        SessionPhase::Failed => "Failed"@,
    }
}

pub struct SessionView {
    pub id: SessionId,
    pub objective: Seq<char>,
    pub phase: SessionPhase,
    pub created_at: Timestamp,
}

#[derive(Debug, PartialEq, Eq)]
pub struct Session {
    pub id: SessionId,
    pub objective: String,
    pub phase: SessionPhase,
    pub created_at: Timestamp,
}

impl View for Session {
    type V = SessionView;

    open spec fn view(&self) -> SessionView {
        SessionView {
            id: self.id,
            objective: self.objective@,
            phase: self.phase,
            created_at: self.created_at,
        }
    }
}

impl Session {
    /// A new session in the planning phase, with a fresh id and the current time.
    pub fn new(objective: &str) -> (r: Self)
        ensures
            r@.objective == objective@,
            r@.phase == SessionPhase::Planning,
    {
        Session {
            id: fresh_id(),
            objective: owned(objective),
            phase: SessionPhase::Planning,
            created_at: now_nanos(),
        }
    }
}

impl Clone for Session {
    fn clone(&self) -> (r: Self)
        ensures
            r@ == self@,
    {
        Session {
            id: self.id,
            objective: self.objective.clone(),
            phase: self.phase,
            created_at: self.created_at,
        }
    }
}

/// Where a task stands.
#[derive(Debug, Clone, Copy, PartialEq, Eq, Structural)]
pub enum TaskStatus {
    Queued,
    Running,
    Blocked,
    WaitingApproval,
    Done,
    Failed,
    Cancelled,
}

pub open spec fn status_name(s: TaskStatus) -> Seq<char> {
    match s {
        TaskStatus::Queued => "Queued"@,
        TaskStatus::Running => "Running"@,
        TaskStatus::Blocked => "Blocked"@,
        TaskStatus::WaitingApproval => "WaitingApproval"@,
        TaskStatus::Done => "Done"@,
        TaskStatus::Failed => "Failed"@,
        TaskStatus::Cancelled => "Cancelled"@,
    }
}

pub proof fn lemma_status_slot_injective(a: TaskStatus, b: TaskStatus)
    ensures
        status_slot(a) == status_slot(b) ==> a == b,
{
}

/// The slot of each status in a [`StatusCounts`].
pub open spec fn status_slot(s: TaskStatus) -> int {
    match s {
        TaskStatus::Queued => 0,
        TaskStatus::Running => 1,
        TaskStatus::Blocked => 2,
        TaskStatus::WaitingApproval => 3,
        TaskStatus::Done => 4,
        TaskStatus::Failed => 5,
        TaskStatus::Cancelled => 6,
    }
}

impl TaskStatus {
    /// The variant's name, as `{:?}` prints it.
    pub fn name(&self) -> (r: &'static str)
        ensures
            r@ == status_name(*self),
    {
        match self {
            TaskStatus::Queued => "Queued",
            TaskStatus::Running => "Running",
            TaskStatus::Blocked => "Blocked",
            TaskStatus::WaitingApproval => "WaitingApproval",
            TaskStatus::Done => "Done",
            TaskStatus::Failed => "Failed",
            TaskStatus::Cancelled => "Cancelled",
        }
    }

    /// Every status, in declaration order.
    pub fn all() -> (r: Vec<TaskStatus>)
        ensures
            r@.len() == 7,
            forall|i: int| 0 <= i < 7 ==> status_slot(#[trigger] r@[i]) == i,
    {
        let mut r = Vec::new();
        r.push(TaskStatus::Queued);
        r.push(TaskStatus::Running);
        r.push(TaskStatus::Blocked);
        r.push(TaskStatus::WaitingApproval);
        r.push(TaskStatus::Done);
        r.push(TaskStatus::Failed);
        r.push(TaskStatus::Cancelled);
        r
    }
}

/// How many tasks stand in each status; a status with no task has no entry.
#[derive(Debug)]
pub struct StatusCounts {
    queued: usize,
    running: usize,
    blocked: usize,
    waiting_approval: usize,
    done: usize,
    failed: usize,
    cancelled: usize,
}

impl StatusCounts {
    /// The number of tasks counted in status `s`.
    pub closed spec fn count(self, s: TaskStatus) -> nat {
        match s {
            TaskStatus::Queued => self.queued as nat,
            TaskStatus::Running => self.running as nat,
            TaskStatus::Blocked => self.blocked as nat,
            TaskStatus::WaitingApproval => self.waiting_approval as nat,
            TaskStatus::Done => self.done as nat,
            TaskStatus::Failed => self.failed as nat,
            TaskStatus::Cancelled => self.cancelled as nat,
        }
    }
}

impl View for StatusCounts {
    type V = Map<TaskStatus, nat>;

    closed spec fn view(&self) -> Map<TaskStatus, nat> {
        Map::new(|s: TaskStatus| self.count(s) > 0, |s: TaskStatus| self.count(s))
    }
}

/// The map of counts that holds `count(s)` for each status with a nonzero count.
pub open spec fn counts_map(count: spec_fn(TaskStatus) -> nat) -> Map<TaskStatus, nat> {
    Map::new(|s: TaskStatus| count(s) > 0, |s: TaskStatus| count(s))
}

impl StatusCounts {
    pub proof fn lemma_view(self)
        ensures
            self@ == counts_map(|s: TaskStatus| self.count(s)),
    {
        assert(self@ =~= counts_map(|s: TaskStatus| self.count(s)));
    }

    /// No task counted.
    pub fn empty() -> (r: Self)
        ensures
            forall|s: TaskStatus| r.count(s) == 0,
            r@ == Map::<TaskStatus, nat>::empty(),
    {
        let r = StatusCounts {
            queued: 0,
            running: 0,
            blocked: 0,
            waiting_approval: 0,
            done: 0,
            failed: 0,
            cancelled: 0,
        };
        assert(r@ =~= Map::<TaskStatus, nat>::empty());
        r
    }

    /// Exactly one task, in status `s`.
    pub fn single(s: TaskStatus) -> (r: Self)
        ensures
            r.count(s) == 1,
            forall|t: TaskStatus| t != s ==> r.count(t) == 0,
            r@ == Map::<TaskStatus, nat>::empty().insert(s, 1),
    {
        let mut r = StatusCounts::empty();
        r.bump(s);
        assert(r@ =~= Map::<TaskStatus, nat>::empty().insert(s, 1));
        r
    }

    /// The count of status `s`.
    pub fn get(&self, s: TaskStatus) -> (r: usize)
        ensures
            r == self.count(s),
    {
        match s {
            TaskStatus::Queued => self.queued,
            TaskStatus::Running => self.running,
            TaskStatus::Blocked => self.blocked,
            TaskStatus::WaitingApproval => self.waiting_approval,
            TaskStatus::Done => self.done,
            TaskStatus::Failed => self.failed,
            TaskStatus::Cancelled => self.cancelled,
        }
    }

    /// Counts one more task in status `s`.
    pub fn bump(&mut self, s: TaskStatus)
        requires
            old(self).count(s) < usize::MAX,
        ensures
            final(self).count(s) == old(self).count(s) + 1,
            forall|t: TaskStatus| t != s ==> final(self).count(t) == old(self).count(t),
    {
        match s {
            TaskStatus::Queued => self.queued = self.queued + 1,
            TaskStatus::Running => self.running = self.running + 1,
            TaskStatus::Blocked => self.blocked = self.blocked + 1,
            TaskStatus::WaitingApproval => self.waiting_approval = self.waiting_approval + 1,
            TaskStatus::Done => self.done = self.done + 1,
            TaskStatus::Failed => self.failed = self.failed + 1,
            TaskStatus::Cancelled => self.cancelled = self.cancelled + 1,
        }
    }

    /// The statuses with a nonzero count, in declaration order, with their counts.
    pub fn entries(&self) -> (r: Vec<(TaskStatus, usize)>)
        ensures
            forall|i: int| 0 <= i < r@.len() ==> self@.contains_key(#[trigger] r@[i].0)
                && self@[r@[i].0] == r@[i].1,
            forall|s: TaskStatus| self@.contains_key(s) ==> exists|i: int|
                0 <= i < r@.len() && #[trigger] r@[i].0 == s,
            forall|i: int, j: int| 0 <= i < j < r@.len() ==> status_slot(r@[i].0) < status_slot(
                r@[j].0,
            ),
    {
        let all = TaskStatus::all();
        let mut r: Vec<(TaskStatus, usize)> = Vec::new();
        let mut i: usize = 0;
        while i < 7
            invariant
                i <= 7,
                all@.len() == 7,
                forall|k: int| 0 <= k < 7 ==> status_slot(#[trigger] all@[k]) == k,
                forall|k: int| 0 <= k < r@.len() ==> self@.contains_key(#[trigger] r@[k].0)
                    && self@[r@[k].0] == r@[k].1 && status_slot(r@[k].0) < i,
                forall|s: TaskStatus| self@.contains_key(s) && status_slot(s) < i ==> exists|k: int|
                    0 <= k < r@.len() && #[trigger] r@[k].0 == s,
                forall|a: int, b: int| 0 <= a < b < r@.len() ==> status_slot(r@[a].0) < status_slot(
                    r@[b].0,
                ),
            decreases 7 - i,
        {
            let s = all[i];
            let c = self.get(s);
            let ghost old_r = r@;
            if c > 0 {
                r.push((s, c));
                assert(r@[r@.len() - 1].0 == s);
            }
            proof {
                assert forall|t: TaskStatus| self@.contains_key(t) && status_slot(t) < i + 1 implies exists|k: int|
                    0 <= k < r@.len() && #[trigger] r@[k].0 == t by {
                    if status_slot(t) == i {
                        lemma_status_slot_injective(t, s);
                        assert(t == s);
                        assert(self.count(t) > 0);
                        assert(r@[r@.len() - 1].0 == t);
                    } else {
                        let k = choose|k: int| 0 <= k < old_r.len() && #[trigger] old_r[k].0 == t;
                        assert(r@[k] == old_r[k]);
                    }
                }
            }
            i = i + 1;
        }
        r
    }
}

impl Clone for StatusCounts {
    fn clone(&self) -> (r: Self)
        ensures
            forall|s: TaskStatus| r.count(s) == self.count(s),
            r@ == self@,
    {
        let r = StatusCounts {
            queued: self.queued,
            running: self.running,
            blocked: self.blocked,
            waiting_approval: self.waiting_approval,
            done: self.done,
            failed: self.failed,
            cancelled: self.cancelled,
        };
        assert(r@ =~= self@);
        r
    }
}

/// Where a capability comes from.
#[derive(Debug, Clone, Copy, PartialEq, Eq, Structural)]
pub enum CapabilitySource {
    Builtin,
    Plugin,
    Mcp,
    Skill,
    Agent,
}

pub open spec fn source_name(s: CapabilitySource) -> Seq<char> {
    match s {
        CapabilitySource::Builtin => "Builtin"@,
        CapabilitySource::Plugin => "Plugin"@,
        CapabilitySource::Mcp => "Mcp"@,
        CapabilitySource::Skill => "Skill"@,
        CapabilitySource::Agent => "Agent"@,
    }
}

impl CapabilitySource {
    /// The variant's name, as `{:?}` prints it.
    pub fn name(&self) -> (r: &'static str)
        ensures
            r@ == source_name(*self),
    {
        match self {
            CapabilitySource::Builtin => "Builtin",
            CapabilitySource::Plugin => "Plugin",
            CapabilitySource::Mcp => "Mcp",
            CapabilitySource::Skill => "Skill",
            CapabilitySource::Agent => "Agent",
        }
    }
}

pub struct CapabilityRefView {
    pub source: CapabilitySource,
    pub name: Seq<char>,
}

#[derive(Debug, PartialEq, Eq)]
pub struct CapabilityRef {
    pub source: CapabilitySource,
    pub name: String,
}

impl View for CapabilityRef {
    type V = CapabilityRefView;

    open spec fn view(&self) -> CapabilityRefView {
        CapabilityRefView { source: self.source, name: self.name@ }
    }
}

impl CapabilityRef {
    pub fn new(source: CapabilitySource, name: &str) -> (r: Self)
        ensures
            r@ == (CapabilityRefView { source, name: name@ }),
    {
        CapabilityRef { source, name: owned(name) }
    }
}

impl Clone for CapabilityRef {
    fn clone(&self) -> (r: Self)
        ensures
            r@ == self@,
    {
        CapabilityRef { source: self.source, name: self.name.clone() }
    }
}

#[derive(Debug, Clone, Copy, PartialEq, Eq, Structural)]
pub enum ArtifactKind {
    Text,
    Json,
    Log,
    File,
    Url,
}

pub struct ArtifactRefView {
    pub id: u128,
    pub name: Seq<char>,
    pub kind: ArtifactKind,
    pub uri: Seq<char>,
}

#[derive(Debug, PartialEq, Eq)]
pub struct ArtifactRef {
    pub id: u128,
    pub name: String,
    pub kind: ArtifactKind,
    pub uri: String,
}

impl View for ArtifactRef {
    type V = ArtifactRefView;

    open spec fn view(&self) -> ArtifactRefView {
        ArtifactRefView { id: self.id, name: self.name@, kind: self.kind, uri: self.uri@ }
    }
}

impl Clone for ArtifactRef {
    fn clone(&self) -> (r: Self)
        ensures
            r@ == self@,
    {
        ArtifactRef {
            id: self.id,
            name: self.name.clone(),
            kind: self.kind,
            uri: self.uri.clone(),
        }
    }
}

pub struct TaskNodeView {
    pub id: TaskId,
    pub title: Seq<char>,
    pub goal: Seq<char>,
    pub department: Seq<char>,
    pub assignee: CapabilityRefView,
    pub dependencies: Seq<TaskId>,
    pub status: TaskStatus,
    pub artifacts: Seq<ArtifactRefView>,
}

#[derive(Debug, PartialEq, Eq)]
pub struct TaskNode {
    pub id: TaskId,
    pub title: String,
    pub goal: String,
    pub department: String,
    pub assignee: CapabilityRef,
    pub dependencies: Vec<TaskId>,
    pub status: TaskStatus,
    pub artifacts: Vec<ArtifactRef>,
}

impl View for TaskNode {
    type V = TaskNodeView;

    open spec fn view(&self) -> TaskNodeView {
        TaskNodeView {
            id: self.id,
            title: self.title@,
            goal: self.goal@,
            department: self.department@,
            assignee: self.assignee@,
            dependencies: self.dependencies@,
            status: self.status,
            artifacts: self.artifacts@.map_values(|a: ArtifactRef| a@),
        }
    }
}

impl TaskNode {
    /// A queued task with a fresh id, no dependencies and no artifacts.
    pub fn new(title: &str, goal: &str, department: &str, assignee: CapabilityRef) -> (r: Self)
        ensures
            r@.title == title@,
            r@.goal == goal@,
            r@.department == department@,
            r@.assignee == assignee@,
            r@.dependencies == Seq::<TaskId>::empty(),
            r@.status == TaskStatus::Queued,
            r@.artifacts == Seq::<ArtifactRefView>::empty(),
    {
        let r = TaskNode {
            id: fresh_id(),
            title: owned(title),
            goal: owned(goal),
            department: owned(department),
            assignee,
            dependencies: Vec::new(),
            status: TaskStatus::Queued,
            artifacts: Vec::new(),
        };
        assert(r@.artifacts =~= Seq::<ArtifactRefView>::empty());
        r
    }

    /// The same task, depending on `dependency` as well.
    pub fn depends_on(self, dependency: TaskId) -> (r: Self)
        ensures
            r@ == (TaskNodeView { dependencies: self@.dependencies.push(dependency), ..self@ }),
    {
        let mut node = self;
        node.dependencies.push(dependency);
        node
    }
}

impl Clone for TaskNode {
    fn clone(&self) -> (r: Self)
        ensures
            r@ == self@,
    {
        let mut artifacts: Vec<ArtifactRef> = Vec::new();
        let mut i: usize = 0;
        while i < self.artifacts.len()
            invariant
                i <= self.artifacts@.len(),
                artifacts@.len() == i,
                forall|k: int| 0 <= k < i ==> (#[trigger] artifacts@[k])@ == self.artifacts@[k]@,
            decreases self.artifacts.len() - i,
        {
            artifacts.push(self.artifacts[i].clone());
            i = i + 1;
        }
        assert(artifacts@.map_values(|a: ArtifactRef| a@) =~= self.artifacts@.map_values(|a: ArtifactRef| a@));
        let dependencies = self.dependencies.clone();
        assert(dependencies@ =~= self.dependencies@);
        TaskNode {
            id: self.id,
            title: self.title.clone(),
            goal: self.goal.clone(),
            department: self.department.clone(),
            assignee: self.assignee.clone(),
            dependencies,
            status: self.status,
            artifacts,
        }
    }
}

/// How many of `nodes` stand in status `s`.
pub open spec fn count_status(nodes: Seq<TaskNodeView>, s: TaskStatus) -> nat
    decreases nodes.len(),
{
    if nodes.len() == 0 {
        0
    } else {
        count_status(nodes.drop_last(), s) + if nodes.last().status == s {
            1nat
        } else {
            0nat
        }
    }
}

pub proof fn lemma_count_status_bounded(nodes: Seq<TaskNodeView>, s: TaskStatus)
    ensures
        count_status(nodes, s) <= nodes.len(),
    decreases nodes.len(),
{
    if nodes.len() > 0 {
        lemma_count_status_bounded(nodes.drop_last(), s);
    }
}

/// The counts of `nodes` over all statuses, added up.
pub open spec fn counts_total(nodes: Seq<TaskNodeView>) -> nat {
    count_status(nodes, TaskStatus::Queued) + count_status(nodes, TaskStatus::Running)
        + count_status(nodes, TaskStatus::Blocked) + count_status(nodes, TaskStatus::WaitingApproval)
        + count_status(nodes, TaskStatus::Done) + count_status(nodes, TaskStatus::Failed)
        + count_status(nodes, TaskStatus::Cancelled)
}

/// Every task stands in exactly one status, so the status counts add up to the number
/// of tasks.
pub proof fn lemma_status_counts_total(nodes: Seq<TaskNodeView>)
    ensures
        counts_total(nodes) == nodes.len(),
    decreases nodes.len(),
{
    if nodes.len() > 0 {
        lemma_status_counts_total(nodes.drop_last());
    }
}

pub struct TaskGraphView {
    pub root_task: TaskId,
    pub nodes: Seq<TaskNodeView>,
}

#[derive(Debug, PartialEq, Eq)]
pub struct TaskGraph {
    pub root_task: TaskId,
    pub nodes: Vec<TaskNode>,
}

impl View for TaskGraph {
    type V = TaskGraphView;

    open spec fn view(&self) -> TaskGraphView {
        TaskGraphView {
            root_task: self.root_task,
            nodes: self.nodes@.map_values(|n: TaskNode| n@),
        }
    }
}

impl TaskGraph {
    pub fn new(root_task: TaskId, nodes: Vec<TaskNode>) -> (r: Self)
        ensures
            r@ == (TaskGraphView {
                root_task,
                nodes: nodes@.map_values(|n: TaskNode| n@),
            }),
    {
        TaskGraph { root_task, nodes }
    }

    /// How many tasks stand in each status.
    pub fn status_counts(&self) -> (r: StatusCounts)
        ensures
            forall|s: TaskStatus| r.count(s) == count_status(self@.nodes, s),
            r@ == counts_map(|s: TaskStatus| count_status(self@.nodes, s)),
    {
        let ghost nodes = self@.nodes;
        let mut counts = StatusCounts::empty();
        let mut i: usize = 0;
        while i < self.nodes.len()
            invariant
                i <= self.nodes@.len(),
                nodes == self@.nodes,
                forall|s: TaskStatus| counts.count(s) == count_status(nodes.take(i as int), s),
            decreases self.nodes.len() - i,
        {
            proof {
                assert(nodes.take(i + 1).drop_last() =~= nodes.take(i as int));
                lemma_count_status_bounded(nodes.take(i as int), self.nodes@[i as int].status);
            }
            counts.bump(self.nodes[i].status);
            i = i + 1;
        }
        proof {
            assert(nodes.take(i as int) =~= nodes);
            counts.lemma_view();
            assert(counts@ =~= counts_map(|s: TaskStatus| count_status(self@.nodes, s)));
        }
        counts
    }
}

impl Clone for TaskGraph {
    fn clone(&self) -> (r: Self)
        ensures
            r@ == self@,
    {
        let mut nodes: Vec<TaskNode> = Vec::new();
        let mut i: usize = 0;
        while i < self.nodes.len()
            invariant
                i <= self.nodes@.len(),
                nodes@.len() == i,
                forall|k: int| 0 <= k < i ==> (#[trigger] nodes@[k])@ == self.nodes@[k]@,
            decreases self.nodes.len() - i,
        {
            nodes.push(self.nodes[i].clone());
            i = i + 1;
        }
        assert(nodes@.map_values(|n: TaskNode| n@) =~= self.nodes@.map_values(|n: TaskNode| n@));
        TaskGraph { root_task: self.root_task, nodes }
    }
}

pub enum RuntimeEventKindView {
    SessionCreated { objective: Seq<char> },
    PhaseChanged { phase: SessionPhase },
    PlanCreated { node_count: nat },
    TaskStatusChanged { status: TaskStatus },
    ToolCallStarted { capability: CapabilityRefView, input: Seq<char> },
    ToolCallFinished { output: Seq<char> },
    ApprovalRequested { reason: Seq<char> },
    ApprovalResolved { approved: bool, note: Option<Seq<char>> },
    Message { role: Seq<char>, content: Seq<char> },
    Error { message: Seq<char> },
}

/// What happened in a session. Tool inputs and outputs are JSON documents, held as their text.
#[derive(Debug, PartialEq, Eq)]
pub enum RuntimeEventKind {
    SessionCreated { objective: String },
    PhaseChanged { phase: SessionPhase },
    PlanCreated { node_count: usize },
    TaskStatusChanged { status: TaskStatus },
    ToolCallStarted { capability: CapabilityRef, input: String },
    ToolCallFinished { output: String },
    ApprovalRequested { reason: String },
    ApprovalResolved { approved: bool, note: Option<String> },
    Message { role: String, content: String },
    Error { message: String },
}

pub open spec fn opt_text_view(o: Option<String>) -> Option<Seq<char>> {
    match o {
        Some(t) => Some(t@),
        None => None,
    }
}

impl View for RuntimeEventKind {
    type V = RuntimeEventKindView;

    open spec fn view(&self) -> RuntimeEventKindView {
        match self {
            RuntimeEventKind::SessionCreated { objective } => RuntimeEventKindView::SessionCreated {
                objective: objective@,
            },
            RuntimeEventKind::PhaseChanged { phase } => RuntimeEventKindView::PhaseChanged {
                phase: *phase,
            },
            RuntimeEventKind::PlanCreated { node_count } => RuntimeEventKindView::PlanCreated {
                node_count: *node_count as nat,
            },
            RuntimeEventKind::TaskStatusChanged { status } => RuntimeEventKindView::TaskStatusChanged {
                status: *status,
            },
            RuntimeEventKind::ToolCallStarted { capability, input } => RuntimeEventKindView::ToolCallStarted {
                capability: capability@,
                input: input@,
            },
            RuntimeEventKind::ToolCallFinished { output } => RuntimeEventKindView::ToolCallFinished {
                output: output@,
            },
            RuntimeEventKind::ApprovalRequested { reason } => RuntimeEventKindView::ApprovalRequested {
                reason: reason@,
            },
            RuntimeEventKind::ApprovalResolved { approved, note } => RuntimeEventKindView::ApprovalResolved {
                approved: *approved,
                note: opt_text_view(*note),
            },
            RuntimeEventKind::Message { role, content } => RuntimeEventKindView::Message {
                role: role@,
                content: content@,
            },
            RuntimeEventKind::Error { message } => RuntimeEventKindView::Error {
                message: message@,
            },
        }
    }
}

/// A copy of an optional text.
pub fn clone_opt_text(o: &Option<String>) -> (r: Option<String>)
    ensures
        opt_text_view(r) == opt_text_view(*o),
{
    match o {
        Some(t) => Some(t.clone()),
        None => None,
    }
}

impl Clone for RuntimeEventKind {
    fn clone(&self) -> (r: Self)
        ensures
            r@ == self@,
    {
        match self {
            RuntimeEventKind::SessionCreated { objective } => RuntimeEventKind::SessionCreated {
                objective: objective.clone(),
            },
            RuntimeEventKind::PhaseChanged { phase } => RuntimeEventKind::PhaseChanged {
                phase: *phase,
            },
            RuntimeEventKind::PlanCreated { node_count } => RuntimeEventKind::PlanCreated {
                node_count: *node_count,
            },
            RuntimeEventKind::TaskStatusChanged { status } => RuntimeEventKind::TaskStatusChanged {
                status: *status,
            },
            RuntimeEventKind::ToolCallStarted { capability, input } => RuntimeEventKind::ToolCallStarted {
                capability: capability.clone(),
                input: input.clone(),
            },
            RuntimeEventKind::ToolCallFinished { output } => RuntimeEventKind::ToolCallFinished {
                output: output.clone(),
            },
            RuntimeEventKind::ApprovalRequested { reason } => RuntimeEventKind::ApprovalRequested {
                reason: reason.clone(),
            },
            RuntimeEventKind::ApprovalResolved { approved, note } => RuntimeEventKind::ApprovalResolved {
                approved: *approved,
                note: clone_opt_text(note),
            },
            RuntimeEventKind::Message { role, content } => RuntimeEventKind::Message {
                role: role.clone(),
                content: content.clone(),
            },
            RuntimeEventKind::Error { message } => RuntimeEventKind::Error {
                message: message.clone(),
            },
        }
    }
}

pub struct RuntimeEventView {
    pub id: EventId,
    pub session_id: SessionId,
    pub task_id: Option<TaskId>,
    pub at: Timestamp,
    pub kind: RuntimeEventKindView,
}

#[derive(Debug, PartialEq, Eq)]
pub struct RuntimeEvent {
    pub id: EventId,
    pub session_id: SessionId,
    pub task_id: Option<TaskId>,
    pub at: Timestamp,
    pub kind: RuntimeEventKind,
}

impl View for RuntimeEvent {
    type V = RuntimeEventView;

    open spec fn view(&self) -> RuntimeEventView {
        RuntimeEventView {
            id: self.id,
            session_id: self.session_id,
            task_id: self.task_id,
            at: self.at,
            kind: self.kind@,
        }
    }
}

impl RuntimeEvent {
    /// An event of `kind` in `session_id`, with a fresh id and the current time.
    pub fn new(session_id: SessionId, task_id: Option<TaskId>, kind: RuntimeEventKind) -> (r: Self)
        ensures
            r@.session_id == session_id,
            r@.task_id == task_id,
            r@.kind == kind@,
    {
        RuntimeEvent { id: fresh_id(), session_id, task_id, at: now_nanos(), kind }
    }
}

impl Clone for RuntimeEvent {
    fn clone(&self) -> (r: Self)
        ensures
            r@ == self@,
    {
        RuntimeEvent {
            id: self.id,
            session_id: self.session_id,
            task_id: self.task_id,
            at: self.at,
            kind: self.kind.clone(),
        }
    }
}

} // verus!
