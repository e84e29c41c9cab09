//! The in-memory session store: sessions with versioned task graphs, event logs and
//! capability configurations.
use vstd::prelude::*;

use crate::domain::{
    phase_name, source_name, status_name, CapabilitySource, RuntimeEvent, RuntimeEventView, Session,
    SessionId, SessionPhase, SessionView, TaskGraph, TaskGraphView, TaskStatus, Timestamp,
};
use crate::text::text_eq;
use crate::clock::now_nanos;
use crate::domain::clone_opt_text;
use crate::domain::opt_text_view;
use crate::index::{inserted_by, NameIndex, Named};
use crate::replay::{StoredRuntimeEvent, StoredRuntimeEventView};

verus! {

pub struct CapabilityConfigView {
    pub source: CapabilitySource,
    pub name: Seq<char>,
    pub enabled: bool,
    pub approval_override: Option<Seq<char>>,
    pub config: Seq<char>,
    pub updated_at: Timestamp,
}

/// How a capability is configured; `config` is a JSON document, held as its text.
#[derive(Debug)]
pub struct CapabilityConfig {
    pub source: CapabilitySource,
    pub name: String,
    pub enabled: bool,
    pub approval_override: Option<String>,
    pub config: String,
    pub updated_at: Timestamp,
}

impl View for CapabilityConfig {
    type V = CapabilityConfigView;

    open spec fn view(&self) -> CapabilityConfigView {
        CapabilityConfigView {
            source: self.source,
            name: self.name@,
            enabled: self.enabled,
            approval_override: opt_text_view(self.approval_override),
            config: self.config@,
            updated_at: self.updated_at,
        }
    }
}

impl Clone for CapabilityConfig {
    fn clone(&self) -> (r: Self)
        ensures
            r@ == self@,
    {
        CapabilityConfig {
            source: self.source,
            name: self.name.clone(),
            enabled: self.enabled,
            approval_override: clone_opt_text(&self.approval_override),
            config: self.config.clone(),
            updated_at: self.updated_at,
        }
    }
}

impl Named for CapabilityConfig {
    open spec fn name_view(&self) -> Seq<char> {
        self.name@
    }

    fn name_str(&self) -> (r: &str) {
        self.name.as_str()
    }
}

pub struct SessionRecordView {
    pub session: SessionView,
    pub updated_at: Timestamp,
    pub current_graph_version: i64,
    pub node_count: nat,
    pub event_count: nat,
}

/// A stored session with the version and size of its graph and the length of its log.
#[derive(Debug)]
pub struct SessionRecord {
    pub session: Session,
    pub updated_at: Timestamp,
    pub current_graph_version: i64,
    pub node_count: usize,
    pub event_count: usize,
}

impl View for SessionRecord {
    type V = SessionRecordView;

    open spec fn view(&self) -> SessionRecordView {
        SessionRecordView {
            session: self.session@,
            updated_at: self.updated_at,
            current_graph_version: self.current_graph_version,
            node_count: self.node_count as nat,
            event_count: self.event_count as nat,
        }
    }
}

/// What the store holds of a session: the session, when it was saved, and its graph
/// with the graph's version and time.
pub struct StoredSessionView {
    pub session: SessionView,
    pub updated_at: Timestamp,
    pub graph_version: i64,
    pub graph: TaskGraphView,
    pub graph_created_at: Timestamp,
}

struct SessionEntry {
    session: Session,
    updated_at: Timestamp,
    graph_version: i64,
    graph: TaskGraph,
    graph_created_at: Timestamp,
}

impl View for SessionEntry {
    type V = StoredSessionView;

    closed spec fn view(&self) -> StoredSessionView {
        StoredSessionView {
            session: self.session@,
            updated_at: self.updated_at,
            graph_version: self.graph_version,
            graph: self.graph@,
            graph_created_at: self.graph_created_at,
        }
    }
}

struct EventLog {
    session_id: SessionId,
    events: Vec<StoredRuntimeEvent>,
}

/// A session as a row of the `sessions` table.
#[derive(Debug)]
pub struct SessionRecordRow {
    pub id: String,
    pub objective: String,
    pub phase: String,
    pub created_at: String,
    pub updated_at: String,
    pub current_graph_version: i64,
}

/// A task as a row of the `task_nodes` table.
#[derive(Debug)]
pub struct TaskNodeRecordRow {
    pub session_id: String,
    pub graph_version: i64,
    pub task_id: String,
    pub title: String,
    pub goal: String,
    pub department: String,
    pub assignee_source: String,
    pub assignee_name: String,
    pub status: String,
    pub artifacts_json: String,
}

/// An event as a row of the `runtime_events` table.
#[derive(Debug)]
pub struct RuntimeEventRecordRow {
    pub session_id: String,
    pub seq: i64,
    pub event_id: String,
    pub task_id: Option<String>,
    pub kind: String,
    pub payload_json: String,
    pub at: String,
}

/// Why the store refused a request.
#[derive(Debug, PartialEq, Eq)]
pub enum StoreError {
    /// This store keeps a session only together with its graph.
    GraphRequired,
    /// A stored name is no variant of the type it names; `expected` lists the variants.
    UnknownVariant { value: String, expected: &'static str },
}

pub open spec fn store_error_message(e: StoreError) -> Seq<char> {
    match e {
        StoreError::GraphRequired => "graph is required for this storage implementation"@,
        StoreError::UnknownVariant { value, expected } => "unknown variant `"@ + value@
            + "`, expected one of "@ + expected@,
    }
}

impl StoreError {
    pub fn message(&self) -> (r: String)
        ensures
            r@ == store_error_message(*self),
    {
        match self {
            StoreError::GraphRequired => crate::text::owned(
                "graph is required for this storage implementation",
            ),
            StoreError::UnknownVariant { value, expected } => {
                let mut m = crate::text::owned("unknown variant `");
                m.append(value.as_str());
                m.append("`, expected one of ");
                m.append(expected);
                m
            },
        }
    }
}

/// An event of `kind` in `session_id` at `at`, as read back from storage, with a fresh id.
pub fn runtime_event_from_parts(
    session_id: SessionId,
    task_id: Option<crate::domain::TaskId>,
    at: Timestamp,
    kind: crate::domain::RuntimeEventKind,
) -> (r: RuntimeEvent)
    ensures
        r@.session_id == session_id,
        r@.task_id == task_id,
        r@.at == at,
        r@.kind == kind@,
{
    RuntimeEvent { id: crate::clock::fresh_id(), session_id, task_id, at, kind }
}

/// A reference to capability `name` of `source`.
pub fn capability_ref(source: CapabilitySource, name: &str) -> (r: crate::domain::CapabilityRef)
    ensures
        r@ == (crate::domain::CapabilityRefView { source, name: name@ }),
{
    crate::domain::CapabilityRef::new(source, name)
}

/// The variants of `SessionPhase`, as an unknown name's error lists them.
pub const PHASE_NAMES: &'static str = "`Intake`, `Planning`, `Approval`, `Executing`, `Reviewing`, `Completed`, `Failed`";

/// The variants of `TaskStatus`, as an unknown name's error lists them.
pub const STATUS_NAMES: &'static str = "`Queued`, `Running`, `Blocked`, `WaitingApproval`, `Done`, `Failed`, `Cancelled`";

/// The variants of `CapabilitySource`, as an unknown name's error lists them.
pub const SOURCE_NAMES: &'static str = "`Builtin`, `Plugin`, `Mcp`, `Skill`, `Agent`";

fn unknown_variant(value: &str, expected: &'static str) -> (r: StoreError)
    ensures
        r matches StoreError::UnknownVariant { value: v, expected: e } && v@ == value@ && e@
            == expected@,
{
    StoreError::UnknownVariant { value: crate::text::owned(value), expected }
}

/// The phase a stored name stands for: the variant of that name.
pub fn parse_session_phase(value: &str) -> (r: Result<SessionPhase, StoreError>)
    ensures
        match r {
            Ok(p) => phase_name(p) == value@,
            Err(e) => (forall|p: SessionPhase| phase_name(p) != value@) && (e matches StoreError::UnknownVariant { value: v, expected: x } && v@ == value@ && x@ == PHASE_NAMES@),
        },
{
    if text_eq(value, "Intake") {
        Ok(SessionPhase::Intake)
    } else if text_eq(value, "Planning") {
        Ok(SessionPhase::Planning)
    } else if text_eq(value, "Approval") {
        Ok(SessionPhase::Approval)
    } else if text_eq(value, "Executing") {
        Ok(SessionPhase::Executing)
    } else if text_eq(value, "Reviewing") {
        Ok(SessionPhase::Reviewing)
    } else if text_eq(value, "Completed") {
        Ok(SessionPhase::Completed)
    } else if text_eq(value, "Failed") {
        Ok(SessionPhase::Failed)
    } else {
        Err(unknown_variant(value, PHASE_NAMES))
    }
}

/// The status a stored name stands for: the variant of that name.
pub fn parse_task_status(value: &str) -> (r: Result<TaskStatus, StoreError>)
    ensures
        match r {
            Ok(s) => status_name(s) == value@,
            Err(e) => (forall|s: TaskStatus| status_name(s) != value@) && (e matches StoreError::UnknownVariant { value: v, expected: x } && v@ == value@ && x@ == STATUS_NAMES@),
        },
{
    if text_eq(value, "Queued") {
        Ok(TaskStatus::Queued)
    } else if text_eq(value, "Running") {
        Ok(TaskStatus::Running)
    } else if text_eq(value, "Blocked") {
        Ok(TaskStatus::Blocked)
    } else if text_eq(value, "WaitingApproval") {
        Ok(TaskStatus::WaitingApproval)
    } else if text_eq(value, "Done") {
        Ok(TaskStatus::Done)
    } else if text_eq(value, "Failed") {
        Ok(TaskStatus::Failed)
    } else if text_eq(value, "Cancelled") {
        Ok(TaskStatus::Cancelled)
    } else {
        Err(unknown_variant(value, STATUS_NAMES))
    }
}

/// The source a stored name stands for: the variant of that name.
pub fn parse_capability_source(value: &str) -> (r: Result<CapabilitySource, StoreError>)
    ensures
        match r {
            Ok(s) => source_name(s) == value@,
            Err(e) => (forall|s: CapabilitySource| source_name(s) != value@) && (e matches StoreError::UnknownVariant { value: v, expected: x } && v@ == value@ && x@ == SOURCE_NAMES@),
        },
{
    if text_eq(value, "Builtin") {
        Ok(CapabilitySource::Builtin)
    } else if text_eq(value, "Plugin") {
        Ok(CapabilitySource::Plugin)
    } else if text_eq(value, "Mcp") {
        Ok(CapabilitySource::Mcp)
    } else if text_eq(value, "Skill") {
        Ok(CapabilitySource::Skill)
    } else if text_eq(value, "Agent") {
        Ok(CapabilitySource::Agent)
    } else {
        Err(unknown_variant(value, SOURCE_NAMES))
    }
}

/// The version the graph of session `id` gets at its next save: one more than the
/// stored one, or 1.
pub open spec fn next_graph_version(table: Map<SessionId, StoredSessionView>, id: SessionId) -> int {
    if table.contains_key(id) {
        table[id].graph_version + 1
    } else {
        1
    }
}

/// The record of a stored session whose log holds `event_count` events.
pub open spec fn record_of(s: StoredSessionView, event_count: nat) -> SessionRecordView {
    SessionRecordView {
        session: s.session,
        updated_at: s.updated_at,
        current_graph_version: s.graph_version,
        node_count: s.graph.nodes.len(),
        event_count,
    }
}

/// `a` is listed before `b`: it was created later, or at the same time with a smaller id.
pub open spec fn listed_before(a: SessionRecordView, b: SessionRecordView) -> bool {
    a.session.created_at > b.session.created_at || (a.session.created_at == b.session.created_at
        && a.session.id < b.session.id)
}

/// The first `cap` events of `log` numbered after `after`, in order.
pub open spec fn events_after(log: Seq<StoredRuntimeEventView>, after: i64, cap: nat) -> Seq<
    StoredRuntimeEventView,
>
    decreases log.len(),
{
    if log.len() == 0 || cap == 0 {
        Seq::empty()
    } else if log[0].seq > after {
        seq![log[0]] + events_after(log.drop_first(), after, (cap - 1) as nat)
    } else {
        events_after(log.drop_first(), after, cap)
    }
}

/// One step a store takes: a session saved with its graph, events appended to the log of
/// a session, or a change that touches neither sessions nor logs (a configuration).
pub enum StoreStep {
    Saved { session: SessionView, graph: TaskGraphView },
    Appended { id: SessionId, events: Seq<StoredRuntimeEventView> },
    Other,
}

/// How many of `steps` save session `id`.
pub open spec fn saves_of(steps: Seq<StoreStep>, id: SessionId) -> nat
    decreases steps.len(),
{
    if steps.len() == 0 {
        0
    } else {
        saves_of(steps.drop_last(), id) + match steps.last() {
            StoreStep::Saved { session, graph } => if session.id == id {
                1nat
            } else {
                0nat
            },
            _ => 0nat,
        }
    }
}

/// The session and graph of the last of `steps` that saves session `id`, if one does.
pub open spec fn last_saved(steps: Seq<StoreStep>, id: SessionId) -> Option<(SessionView, TaskGraphView)>
    decreases steps.len(),
{
    if steps.len() == 0 {
        None
    } else {
        match steps.last() {
            StoreStep::Saved { session, graph } => if session.id == id {
                Some((session, graph))
            } else {
                last_saved(steps.drop_last(), id)
            },
            _ => last_saved(steps.drop_last(), id),
        }
    }
}

/// The events that `steps` append to the log of session `id`, in order.
pub open spec fn appended_of(steps: Seq<StoreStep>, id: SessionId) -> Seq<StoredRuntimeEventView>
    decreases steps.len(),
{
    if steps.len() == 0 {
        Seq::empty()
    } else {
        appended_of(steps.drop_last(), id) + match steps.last() {
            StoreStep::Appended { id: i, events } => if i == id {
                events
            } else {
                Seq::empty()
            },
            _ => Seq::empty(),
        }
    }
}

/// The configurations of each source, kept in ascending order of capability name.
struct ConfigBuckets {
    agent: NameIndex<CapabilityConfig>,
    builtin: NameIndex<CapabilityConfig>,
    mcp: NameIndex<CapabilityConfig>,
    plugin: NameIndex<CapabilityConfig>,
    skill: NameIndex<CapabilityConfig>,
}

pub open spec fn config_key() -> spec_fn(CapabilityConfigView) -> Seq<char> {
    |c: CapabilityConfigView| c.name
}

/// Sessions, their graphs, their event logs, and capability configurations.
pub struct MemoryStore {
    sessions: Vec<SessionEntry>,
    logs: Vec<EventLog>,
    configs: ConfigBuckets,
}

impl ConfigBuckets {
    spec fn bucket(&self, s: CapabilitySource) -> NameIndex<CapabilityConfig> {
        match s {
            CapabilitySource::Agent => self.agent,
            CapabilitySource::Builtin => self.builtin,
            CapabilitySource::Mcp => self.mcp,
            CapabilitySource::Plugin => self.plugin,
            CapabilitySource::Skill => self.skill,
        }
    }

    fn bucket_ref(&self, s: CapabilitySource) -> (r: &NameIndex<CapabilityConfig>)
        ensures
            *r == self.bucket(s),
    {
        match s {
            CapabilitySource::Agent => &self.agent,
            CapabilitySource::Builtin => &self.builtin,
            CapabilitySource::Mcp => &self.mcp,
            CapabilitySource::Plugin => &self.plugin,
            CapabilitySource::Skill => &self.skill,
        }
    }
}

impl MemoryStore {
    /// Ids are kept once each, each log is numbered 1, 2, ... in order, and each bucket
    /// of configurations holds its own source in ascending order of name.
    pub closed spec fn wf(&self) -> bool {
        &&& forall|i: int, j: int|
            0 <= i < j < self.sessions@.len() ==> (#[trigger] self.sessions@[i]).session.id
                != (#[trigger] self.sessions@[j]).session.id
        &&& forall|i: int, j: int|
            0 <= i < j < self.logs@.len() ==> (#[trigger] self.logs@[i]).session_id
                != (#[trigger] self.logs@[j]).session_id
        &&& forall|i: int, k: int|
            0 <= i < self.logs@.len() && 0 <= k < self.logs@[i].events@.len() ==> (
            #[trigger] self.logs@[i].events@[k]).seq == k + 1
        &&& forall|s: CapabilitySource| #[trigger] self.configs.bucket(s).wf()
        &&& forall|s: CapabilitySource, k: int|
            0 <= k < self.configs.bucket(s)@.len() ==> (#[trigger] self.configs.bucket(s)@[k]).source
                == s
    }

    spec fn session_index(&self, id: SessionId) -> int {
        choose|i: int| 0 <= i < self.sessions@.len() && (#[trigger] self.sessions@[i]).session.id == id
    }

    spec fn log_index(&self, id: SessionId) -> int {
        choose|i: int| 0 <= i < self.logs@.len() && (#[trigger] self.logs@[i]).session_id == id
    }

    /// The stored sessions, by id.
    pub closed spec fn session_table(&self) -> Map<SessionId, StoredSessionView> {
        Map::new(
            |id: SessionId|
                exists|i: int|
                    0 <= i < self.sessions@.len() && (#[trigger] self.sessions@[i]).session.id == id,
            |id: SessionId| self.sessions@[self.session_index(id)]@,
        )
    }

    /// The event log of each session that has one.
    pub closed spec fn log_table(&self) -> Map<SessionId, Seq<StoredRuntimeEventView>> {
        Map::new(
            |id: SessionId|
                exists|i: int| 0 <= i < self.logs@.len() && (#[trigger] self.logs@[i]).session_id == id,
            |id: SessionId|
                self.logs@[self.log_index(id)].events@.map_values(|e: StoredRuntimeEvent| e@),
        )
    }

    /// The event log of session `id`: empty when it has none.
    pub open spec fn log_of(&self, id: SessionId) -> Seq<StoredRuntimeEventView> {
        if self.log_table().contains_key(id) {
            self.log_table()[id]
        } else {
            Seq::empty()
        }
    }

    /// The configurations of source `s`, in ascending order of name.
    pub closed spec fn configs_of(&self, s: CapabilitySource) -> Seq<CapabilityConfigView> {
        self.configs.bucket(s)@.map_values(|c: CapabilityConfig| c@)
    }

    /// All configurations, in ascending order of source name, then of capability name.
    pub open spec fn configs_view(&self) -> Seq<CapabilityConfigView> {
        self.configs_of(CapabilitySource::Agent) + self.configs_of(CapabilitySource::Builtin)
            + self.configs_of(CapabilitySource::Mcp) + self.configs_of(CapabilitySource::Plugin)
            + self.configs_of(CapabilitySource::Skill)
    }

    /// The record of session `id`.
    pub open spec fn record(&self, id: SessionId) -> SessionRecordView {
        record_of(self.session_table()[id], self.log_of(id).len())
    }

    /// An empty store.
    pub fn new() -> (r: Self)
        ensures
            r.wf(),
            r.session_table() == Map::<SessionId, StoredSessionView>::empty(),
            r.log_table() == Map::<SessionId, Seq<StoredRuntimeEventView>>::empty(),
            forall|s: CapabilitySource| r.configs_of(s) == Seq::<CapabilityConfigView>::empty(),
    {
        let r = MemoryStore {
            sessions: Vec::new(),
            logs: Vec::new(),
            configs: ConfigBuckets {
                agent: NameIndex::new(),
                builtin: NameIndex::new(),
                mcp: NameIndex::new(),
                plugin: NameIndex::new(),
                skill: NameIndex::new(),
            },
        };
        assert(r.session_table() =~= Map::<SessionId, StoredSessionView>::empty());
        assert(r.log_table() =~= Map::<SessionId, Seq<StoredRuntimeEventView>>::empty());
        assert forall|s: CapabilitySource| r.configs_of(s) == Seq::<CapabilityConfigView>::empty() by {
            assert(r.configs_of(s) =~= Seq::<CapabilityConfigView>::empty());
        }
        r
    }

    proof fn lemma_session_index(&self, i: int)
        requires
            self.wf(),
            0 <= i < self.sessions@.len(),
        ensures
            self.session_table().contains_key(self.sessions@[i].session.id),
            self.session_index(self.sessions@[i].session.id) == i,
            self.session_table()[self.sessions@[i].session.id] == self.sessions@[i]@,
    {
        let id = self.sessions@[i].session.id;
        assert(self.session_table().contains_key(id));
        let j = self.session_index(id);
        if i < j {
            assert(self.sessions@[i].session.id != self.sessions@[j].session.id);
        } else if j < i {
            assert(self.sessions@[j].session.id != self.sessions@[i].session.id);
        }
    }

    /// Each event log is numbered 1, 2, ... in order, so listing the events after `after`
    /// gives the window from the one numbered `after + 1`, at most `cap` of them; listing
    /// after 0 with room for all gives the whole log.
    pub proof fn lemma_log_listing(&self, id: SessionId, after: i64, cap: nat)
        requires
            self.wf(),
        ensures
            forall|k: int|
                0 <= k < self.log_of(id).len() ==> (#[trigger] self.log_of(id)[k]).seq == k + 1,
            events_after(self.log_of(id), after, cap) == self.log_of(id).subrange(
                window_start(self.log_of(id).len(), 0, after as int),
                window_end(self.log_of(id).len(), 0, after as int, cap),
            ),
            cap >= self.log_of(id).len() ==> events_after(self.log_of(id), 0, cap) == self.log_of(
                id,
            ),
    {
        let log = self.log_of(id);
        if self.log_table().contains_key(id) {
            let i = self.log_index(id);
            self.lemma_log_index(i);
            assert forall|k: int| 0 <= k < log.len() implies (#[trigger] log[k]).seq == k + 1 by {
                assert(log[k] == self.logs@[i].events@[k]@);
            }
        }
        lemma_events_after_window(log, 0, after, cap);
        lemma_events_after_window(log, 0, 0, cap);
        if cap >= log.len() {
            assert(log.subrange(0, log.len() as int) =~= log);
        }
    }

    /// What an append writes, a listing gives back: when the log of `id` is `before`
    /// followed by `appended`, the events listed after the number `before` ends at, with
    /// room for all of them, are exactly `appended`.
    pub proof fn lemma_listed_after_append(
        &self,
        id: SessionId,
        before: Seq<StoredRuntimeEventView>,
        appended: Seq<StoredRuntimeEventView>,
        cap: nat,
    )
        requires
            self.wf(),
            self.log_of(id) == before + appended,
            before.len() <= i64::MAX,
            cap >= appended.len(),
        ensures
            events_after(self.log_of(id), before.len() as i64, cap) == appended,
    {
        let log = self.log_of(id);
        self.lemma_log_listing(id, before.len() as i64, cap);
        assert(log.subrange(before.len() as int, log.len() as int) =~= appended);
    }

    /// A saved configuration is the one found: once `config` is put among the
    /// configurations of its source, looking its name up there gives it, and the other
    /// names give what they gave before.
    pub proof fn lemma_upserted_config(&self, config: CapabilityConfigView, name: Seq<char>)
        requires
            self.wf(),
        ensures
            crate::index::lookup_by(
                inserted_by(self.configs_of(config.source), config, config_key()),
                config.name,
                config_key(),
            ) == Some(config),
            name != config.name ==> crate::index::lookup_by(
                inserted_by(self.configs_of(config.source), config, config_key()),
                name,
                config_key(),
            ) == crate::index::lookup_by(self.configs_of(config.source), name, config_key()),
    {
        let items = self.configs.bucket(config.source)@;
        let views = self.configs_of(config.source);
        let key = config_key();
        assert(self.configs.bucket(config.source).wf());
        assert forall|a: int, b: int| 0 <= a < b < views.len() implies crate::text::text_lt(
            #[trigger] key(views[a]),
            #[trigger] key(views[b]),
        ) by {
            let nk = crate::index::name_key::<CapabilityConfig>();
            assert(crate::text::text_lt(nk(items[a]), nk(items[b])));
        }
        crate::index::lemma_lookup_inserted(views, config, key, name);
    }

    /// `self` is `before` once `step` is taken, as `save_session`, `append_events` and
    /// the configuration changes state it.
    pub open spec fn step_taken(self, before: MemoryStore, step: StoreStep) -> bool {
        match step {
            StoreStep::Saved { session, graph } => {
                &&& self.session_table() == before.session_table().insert(
                    session.id,
                    self.session_table()[session.id],
                )
                &&& self.session_table()[session.id].session == session
                &&& self.session_table()[session.id].graph == graph
                &&& self.session_table()[session.id].graph_version == next_graph_version(
                    before.session_table(),
                    session.id,
                )
                &&& self.log_table() == before.log_table()
            },
            StoreStep::Appended { id, events } => {
                &&& self.log_table() == before.log_table().insert(id, before.log_of(id) + events)
                &&& self.session_table() == before.session_table()
            },
            StoreStep::Other => {
                &&& self.session_table() == before.session_table()
                &&& self.log_table() == before.log_table()
            },
        }
    }

    /// What a history of `steps` leaves of session `id`: it is stored exactly when some
    /// step saved it; its record then carries the session and the graph size of its last
    /// save and a graph version equal to the number of its saves; its log holds the
    /// events appended to it, in order, and its record counts them.
    pub open spec fn holds_history_of(self, steps: Seq<StoreStep>, id: SessionId) -> bool {
        &&& self.session_table().contains_key(id) == (saves_of(steps, id) > 0)
        &&& self.log_of(id) == appended_of(steps, id)
        &&& self.session_table().contains_key(id) ==> match last_saved(steps, id) {
            Some(p) => {
                &&& self.record(id).session == p.0
                &&& self.record(id).node_count == p.1.nodes.len()
                &&& self.record(id).current_graph_version == saves_of(steps, id)
                &&& self.record(id).event_count == appended_of(steps, id).len()
            },
            None => false,
        }
    }

    proof fn lemma_log_index(&self, i: int)
        requires
            self.wf(),
            0 <= i < self.logs@.len(),
        ensures
            self.log_table().contains_key(self.logs@[i].session_id),
            self.log_index(self.logs@[i].session_id) == i,
            self.log_of(self.logs@[i].session_id) == self.logs@[i].events@.map_values(
                |e: StoredRuntimeEvent| e@,
            ),
    {
        let id = self.logs@[i].session_id;
        assert(self.log_table().contains_key(id));
        let j = self.log_index(id);
        if i < j {
            assert(self.logs@[i].session_id != self.logs@[j].session_id);
        } else if j < i {
            assert(self.logs@[j].session_id != self.logs@[i].session_id);
        }
    }

    /// Where session `id` is kept, if it is.
    fn find_session(&self, id: SessionId) -> (r: Option<usize>)
        requires
            self.wf(),
        ensures
            r is Some <==> self.session_table().contains_key(id),
            r matches Some(i) ==> i < self.sessions@.len() && self.sessions@[i as int].session.id
                == id && self.session_table()[id] == self.sessions@[i as int]@,
    {
        let mut i: usize = 0;
        while i < self.sessions.len()
            invariant
                self.wf(),
                i <= self.sessions@.len(),
                forall|k: int| 0 <= k < i ==> (#[trigger] self.sessions@[k]).session.id != id,
            decreases self.sessions.len() - i,
        {
            if self.sessions[i].session.id == id {
                proof {
                    self.lemma_session_index(i as int);
                }
                return Some(i);
            }
            i = i + 1;
        }
        None
    }

    /// Where the log of session `id` is kept, if it has one.
    fn find_log(&self, id: SessionId) -> (r: Option<usize>)
        requires
            self.wf(),
        ensures
            r is Some <==> self.log_table().contains_key(id),
            r matches Some(i) ==> i < self.logs@.len() && self.logs@[i as int].session_id == id
                && self.log_of(id) == self.logs@[i as int].events@.map_values(
                |e: StoredRuntimeEvent| e@,
            ),
            r is None ==> self.log_of(id) == Seq::<StoredRuntimeEventView>::empty(),
    {
        let mut i: usize = 0;
        while i < self.logs.len()
            invariant
                self.wf(),
                i <= self.logs@.len(),
                forall|k: int| 0 <= k < i ==> (#[trigger] self.logs@[k]).session_id != id,
            decreases self.logs.len() - i,
        {
            if self.logs[i].session_id == id {
                proof {
                    self.lemma_log_index(i as int);
                }
                return Some(i);
            }
            i = i + 1;
        }
        None
    }
}

impl MemoryStore {
    /// The SQL schema of the persistent form of this store.
    pub fn migrations_sql(&self) -> (r: &'static str)
        ensures
            r@ == SQLITE_MIGRATIONS@,
    {
        SQLITE_MIGRATIONS
    }

    /// Saves a session with its graph; the graph's version becomes one more than the
    /// stored one, or 1 for a new session.
    pub fn save_session(&mut self, session: &Session, graph: &TaskGraph)
        requires
            old(self).wf(),
            old(self).session_table().contains_key(session.id) ==> old(self).session_table()[session.id].graph_version
                < i64::MAX,
        ensures
            final(self).wf(),
            final(self).session_table() == old(self).session_table().insert(
                session.id,
                final(self).session_table()[session.id],
            ),
            final(self).session_table()[session.id].session == session@,
            final(self).session_table()[session.id].graph == graph@,
            final(self).session_table()[session.id].graph_version == next_graph_version(
                old(self).session_table(),
                session.id,
            ),
            final(self).log_table() == old(self).log_table(),
            forall|s: CapabilitySource| #[trigger] final(self).configs_of(s) == old(self).configs_of(s),
            final(self).step_taken(*old(self), StoreStep::Saved { session: session@, graph: graph@ }),
    {
        let ghost old_store = *self;
        let id = session.id;
        let found = self.find_session(id);
        let version = match found {
            Some(i) => self.sessions[i].graph_version + 1,
            None => 1,
        };
        let updated_at = now_nanos();
        let entry = SessionEntry {
            session: session.clone(),
            updated_at,
            graph_version: version,
            graph: graph.clone(),
            graph_created_at: now_nanos(),
        };
        let ghost ev = entry@;
        match found {
            Some(i) => {
                self.sessions.set(i, entry);
            },
            None => {
                self.sessions.push(entry);
            },
        }
        proof {
            assert(self.configs == old_store.configs);
            assert(self.logs@ == old_store.logs@);
            assert(self.log_table() =~= old_store.log_table());
            assert(self.wf());
            let pos = match found {
                Some(i) => i as int,
                None => old_store.sessions@.len() as int,
            };
            assert(self.sessions@[pos].session.id == id);
            self.lemma_session_index(pos);
            let new_t = self.session_table();
            let old_t = old_store.session_table();
            assert forall|k: SessionId| #![trigger new_t.contains_key(k)] #![trigger old_t.contains_key(k)] k != id implies (new_t.contains_key(k)
                == old_t.contains_key(k) && (new_t.contains_key(k)
                ==> new_t[k] == old_t[k])) by {
                if old_store.session_table().contains_key(k) {
                    let j = old_store.session_index(k);
                    old_store.lemma_session_index(j);
                    assert(self.sessions@[j] == old_store.sessions@[j]);
                    self.lemma_session_index(j);
                }
                if self.session_table().contains_key(k) {
                    let j = self.session_index(k);
                    self.lemma_session_index(j);
                    assert(j != pos);
                    assert(self.sessions@[j] == old_store.sessions@[j]);
                    old_store.lemma_session_index(j);
                }
            }
            let expect = old_t.insert(id, new_t[id]);
            assert forall|k: SessionId| #[trigger] new_t.contains_key(k) == expect.contains_key(k) by {
                if k != id {
                    assert(new_t.contains_key(k) == old_t.contains_key(k));
                }
            }
            assert forall|k: SessionId| #[trigger] new_t.contains_key(k) implies new_t[k] == expect[k] by {
                if k != id {
                    assert(new_t.contains_key(k) == old_t.contains_key(k));
                }
            }
            assert(new_t =~= expect);
        }
    }
}

/// The schema of the persistent form of this store.
pub const SQLITE_MIGRATIONS: &'static str = "
PRAGMA foreign_keys = ON;
PRAGMA journal_mode = WAL;

CREATE TABLE IF NOT EXISTS sessions (
  id TEXT PRIMARY KEY,
  objective TEXT NOT NULL,
  phase TEXT NOT NULL,
  created_at TEXT NOT NULL,
  updated_at TEXT NOT NULL,
  current_graph_version INTEGER NOT NULL DEFAULT 1
);

CREATE TABLE IF NOT EXISTS task_graph_versions (
  session_id TEXT NOT NULL,
  version INTEGER NOT NULL,
  root_task_id TEXT NOT NULL,
  created_at TEXT NOT NULL,
  PRIMARY KEY (session_id, version)
);

CREATE TABLE IF NOT EXISTS task_nodes (
  session_id TEXT NOT NULL,
  graph_version INTEGER NOT NULL,
  task_id TEXT NOT NULL,
  title TEXT NOT NULL,
  goal TEXT NOT NULL,
  department TEXT NOT NULL,
  assignee_source TEXT NOT NULL,
  assignee_name TEXT NOT NULL,
  status TEXT NOT NULL,
  artifacts_json TEXT NOT NULL,
  PRIMARY KEY (session_id, graph_version, task_id)
);

CREATE TABLE IF NOT EXISTS task_dependencies (
  session_id TEXT NOT NULL,
  graph_version INTEGER NOT NULL,
  task_id TEXT NOT NULL,
  depends_on_task_id TEXT NOT NULL,
  PRIMARY KEY (session_id, graph_version, task_id, depends_on_task_id)
);

CREATE TABLE IF NOT EXISTS runtime_events (
  session_id TEXT NOT NULL,
  seq INTEGER NOT NULL,
  event_id TEXT NOT NULL,
  task_id TEXT,
  kind TEXT NOT NULL,
  payload_json TEXT NOT NULL,
  at TEXT NOT NULL,
  PRIMARY KEY (session_id, seq)
);

CREATE TABLE IF NOT EXISTS capability_configs (
  source TEXT NOT NULL,
  name TEXT NOT NULL,
  enabled INTEGER NOT NULL,
  approval_override TEXT,
  config_json TEXT NOT NULL,
  updated_at TEXT NOT NULL,
  PRIMARY KEY (source, name)
);
";

impl MemoryStore {
    /// The graph of session `id`, if the session is stored.
    pub fn get_graph(&self, id: SessionId) -> (r: Option<TaskGraph>)
        requires
            self.wf(),
        ensures
            r is Some <==> self.session_table().contains_key(id),
            r matches Some(g) ==> g@ == self.session_table()[id].graph,
    {
        match self.find_session(id) {
            Some(i) => Some(self.sessions[i].graph.clone()),
            None => None,
        }
    }

    /// How many events the log of session `id` holds.
    fn event_count(&self, id: SessionId) -> (r: usize)
        requires
            self.wf(),
        ensures
            r == self.log_of(id).len(),
    {
        match self.find_log(id) {
            Some(i) => self.logs[i].events.len(),
            None => 0,
        }
    }

    fn record_at(&self, i: usize) -> (r: SessionRecord)
        requires
            self.wf(),
            i < self.sessions@.len(),
        ensures
            r@ == self.record(self.sessions@[i as int].session.id),
    {
        proof {
            self.lemma_session_index(i as int);
        }
        let e = &self.sessions[i];
        SessionRecord {
            session: e.session.clone(),
            updated_at: e.updated_at,
            current_graph_version: e.graph_version,
            node_count: e.graph.nodes.len(),
            event_count: self.event_count(e.session.id),
        }
    }

    /// The record of session `id`, if it is stored.
    pub fn get_session(&self, id: SessionId) -> (r: Option<SessionRecord>)
        requires
            self.wf(),
        ensures
            r is Some <==> self.session_table().contains_key(id),
            r matches Some(rec) ==> rec@ == self.record(id),
    {
        match self.find_session(id) {
            Some(i) => Some(self.record_at(i)),
            None => None,
        }
    }

    /// Appends `events` to the log of session `id`, numbering them on from the log's
    /// length, and gives back what it appended.
    pub fn append_events(&mut self, id: SessionId, events: &[RuntimeEvent]) -> (r: Vec<StoredRuntimeEvent>)
        requires
            old(self).wf(),
            old(self).log_of(id).len() + events@.len() <= i64::MAX,
        ensures
            final(self).wf(),
            r@.len() == events@.len(),
            forall|k: int| 0 <= k < r@.len() ==> (#[trigger] r@[k])@ == (StoredRuntimeEventView {
                seq: (old(self).log_of(id).len() + k + 1) as i64,
                event: events@[k]@,
            }),
            final(self).log_table() == old(self).log_table().insert(
                id,
                old(self).log_of(id) + r@.map_values(|e: StoredRuntimeEvent| e@),
            ),
            final(self).session_table() == old(self).session_table(),
            forall|s: CapabilitySource| #[trigger] final(self).configs_of(s) == old(self).configs_of(s),
            final(self).step_taken(
                *old(self),
                StoreStep::Appended { id, events: r@.map_values(|e: StoredRuntimeEvent| e@) },
            ),
    {
        let ghost old_store = *self;
        let ghost old_log = old_store.log_of(id);
        let found = self.find_log(id);
        let li = match found {
            Some(i) => i,
            None => {
                self.logs.push(EventLog { session_id: id, events: Vec::new() });
                self.logs.len() - 1
            },
        };
        let ghost mid = *self;
        proof {
            assert(self.logs@[li as int].events@.map_values(|e: StoredRuntimeEvent| e@) =~= old_log);
        }
        let mut log = Vec::new();
        std::mem::swap(&mut log, &mut self.logs[li].events);
        proof {
            assert forall|j: int| 0 <= j < log@.len() implies (#[trigger] log@[j]).seq == j + 1 by {
                assert(mid.logs@[li as int].events@[j] == log@[j]);
            }
        }
        let mut appended: Vec<StoredRuntimeEvent> = Vec::new();
        let mut k: usize = 0;
        while k < events.len()
            invariant
                k <= events@.len(),
                old_log.len() + events@.len() <= i64::MAX,
                log@.map_values(|e: StoredRuntimeEvent| e@) =~= old_log + appended@.map_values(
                    |e: StoredRuntimeEvent| e@,
                ),
                appended@.len() == k,
                log@.len() == old_log.len() + k,
                forall|j: int| 0 <= j < k ==> (#[trigger] appended@[j])@ == (StoredRuntimeEventView {
                    seq: (old_log.len() + j + 1) as i64,
                    event: events@[j]@,
                }),
                forall|j: int| 0 <= j < log@.len() ==> (#[trigger] log@[j]).seq == j + 1,
            decreases events.len() - k,
        {
            let seq = (log.len() as i64) + 1;
            let stored = StoredRuntimeEvent::from_event(seq, events[k].clone());
            let ghost log_before = log@.map_values(|e: StoredRuntimeEvent| e@);
            let ghost app_before = appended@.map_values(|e: StoredRuntimeEvent| e@);
            log.push(stored.clone());
            appended.push(stored);
            assert(log@.map_values(|e: StoredRuntimeEvent| e@) =~= log_before.push(stored@));
            assert(appended@.map_values(|e: StoredRuntimeEvent| e@) =~= app_before.push(stored@));
            k = k + 1;
        }
        std::mem::swap(&mut log, &mut self.logs[li].events);
        proof {
            assert(self.configs == old_store.configs);
            assert(self.sessions@ == old_store.sessions@);
            assert(self.session_table() =~= old_store.session_table());
            assert(self.logs@.len() == mid.logs@.len());
            assert forall|a: int| 0 <= a < self.logs@.len() && a != li implies #[trigger] self.logs@[a] == mid.logs@[a] by {}
            assert(self.logs@[li as int].session_id == id);
            assert(self.wf());
            self.lemma_log_index(li as int);
            let new_t = self.log_table();
            let old_t = old_store.log_table();
            let expect = old_t.insert(id, old_log + appended@.map_values(|e: StoredRuntimeEvent| e@));
            assert forall|q: SessionId| #![trigger new_t.contains_key(q)] #![trigger old_t.contains_key(q)] q != id implies (new_t.contains_key(q)
                == old_t.contains_key(q) && (new_t.contains_key(q) ==> new_t[q] == old_t[q])) by {
                if old_t.contains_key(q) {
                    let j = old_store.log_index(q);
                    old_store.lemma_log_index(j);
                    assert(self.logs@[j] == old_store.logs@[j]);
                    self.lemma_log_index(j);
                }
                if new_t.contains_key(q) {
                    let j = self.log_index(q);
                    self.lemma_log_index(j);
                    assert(j != li);
                    assert(self.logs@[j] == old_store.logs@[j]);
                    old_store.lemma_log_index(j);
                }
            }
            assert forall|q: SessionId| #[trigger] new_t.contains_key(q) == expect.contains_key(q) by {
                if q != id {
                    assert(new_t.contains_key(q) == old_t.contains_key(q));
                }
            }
            assert forall|q: SessionId| #[trigger] new_t.contains_key(q) implies new_t[q] == expect[q] by {
                if q != id {
                    assert(new_t.contains_key(q) == old_t.contains_key(q));
                }
            }
            assert(new_t =~= expect);
        }
        appended
    }
}

/// The first index of the window of a log numbered on from `base` that holds the events
/// numbered after `after`.
pub open spec fn window_start(len: nat, base: int, after: int) -> int {
    if after <= base {
        0
    } else if after - base >= len {
        len as int
    } else {
        after - base
    }
}

/// The end of that window when it holds at most `cap` events.
pub open spec fn window_end(len: nat, base: int, after: int, cap: nat) -> int {
    if window_start(len, base, after) + cap <= len {
        window_start(len, base, after) + cap
    } else {
        len as int
    }
}

/// In a log numbered on from `base` (its events carry `base + 1`, `base + 2`, ...), the
/// events numbered after `after`, at most `cap` of them, are a window of the log: from
/// the one numbered `after + 1`, in order.
pub proof fn lemma_events_after_window(
    log: Seq<StoredRuntimeEventView>,
    base: int,
    after: i64,
    cap: nat,
)
    requires
        base >= 0,
        forall|k: int| 0 <= k < log.len() ==> (#[trigger] log[k]).seq == base + k + 1,
    ensures
        events_after(log, after, cap) == log.subrange(
            window_start(log.len(), base, after as int),
            window_end(log.len(), base, after as int, cap),
        ),
    decreases log.len(),
{
    let start = window_start(log.len(), base, after as int);
    let end = window_end(log.len(), base, after as int, cap);
    if log.len() == 0 || cap == 0 {
        assert(log.subrange(start, end) =~= Seq::<StoredRuntimeEventView>::empty());
    } else {
        let rest = log.drop_first();
        assert forall|k: int| 0 <= k < rest.len() implies (#[trigger] rest[k]).seq == (base + 1) + k
            + 1 by {
            assert(rest[k] == log[k + 1]);
        }
        if log[0].seq > after {
            lemma_events_after_window(rest, base + 1, after, (cap - 1) as nat);
            assert(seq![log[0]] + rest.subrange(
                window_start(rest.len(), base + 1, after as int),
                window_end(rest.len(), base + 1, after as int, (cap - 1) as nat),
            ) =~= log.subrange(start, end));
        } else {
            lemma_events_after_window(rest, base + 1, after, cap);
            assert(rest.subrange(
                window_start(rest.len(), base + 1, after as int),
                window_end(rest.len(), base + 1, after as int, cap),
            ) =~= log.subrange(start, end));
        }
    }
}

/// An event is numbered after `after`.
pub open spec fn numbered_after(after: i64) -> spec_fn(StoredRuntimeEventView) -> bool {
    |e: StoredRuntimeEventView| e.seq > after
}

/// The first `n` items of `s`, or all of them when there are fewer.
pub open spec fn first_n<A>(s: Seq<A>, n: nat) -> Seq<A> {
    if n < s.len() {
        s.take(n as int)
    } else {
        s
    }
}

/// The events after `after`, at most `cap`, are the first `cap` of those that the
/// log holds numbered after `after`, in order.
pub proof fn lemma_events_after_filter(log: Seq<StoredRuntimeEventView>, after: i64, cap: nat)
    ensures
        events_after(log, after, cap) == first_n(log.filter(numbered_after(after)), cap),
    decreases log.len(),
{
    let pred = numbered_after(after);
    if log.len() == 0 {
        reveal(Seq::filter);
        assert(log.filter(pred) =~= Seq::<StoredRuntimeEventView>::empty());
    } else {
        let rest = log.drop_first();
        let head = seq![log[0]];
        assert(log =~= head + rest);
        Seq::filter_distributes_over_add(head, rest, pred);
        assert(head.drop_last() =~= Seq::<StoredRuntimeEventView>::empty());
        reveal_with_fuel(Seq::filter, 2);
        assert(head.drop_last().filter(pred) =~= Seq::<StoredRuntimeEventView>::empty());
        let rf = rest.filter(pred);
        if cap == 0 {
            assert(first_n(log.filter(pred), cap) =~= Seq::<StoredRuntimeEventView>::empty());
        } else if pred(log[0]) {
            assert(head.filter(pred) =~= head);
            lemma_events_after_filter(rest, after, (cap - 1) as nat);
            assert(log.filter(pred) =~= head + rf);
            assert(seq![log[0]] + first_n(rf, (cap - 1) as nat) =~= first_n(head + rf, cap));
        } else {
            assert(head.filter(pred) =~= Seq::<StoredRuntimeEventView>::empty());
            lemma_events_after_filter(rest, after, cap);
            assert(log.filter(pred) =~= rf);
        }
    }
}

/// A store's history decides what it holds: after a run of saves, appends and other
/// changes from an empty store, every session is stored exactly when it was saved, with
/// the session and graph size of its last save, a graph version equal to the number of
/// its saves, and a log of the events appended to it, in order.
pub proof fn lemma_store_history(states: Seq<MemoryStore>, steps: Seq<StoreStep>)
    requires
        states.len() == steps.len() + 1,
        states[0].session_table() == Map::<SessionId, StoredSessionView>::empty(),
        states[0].log_table() == Map::<SessionId, Seq<StoredRuntimeEventView>>::empty(),
        forall|k: int|
            0 <= k < steps.len() ==> (#[trigger] states[k + 1]).step_taken(states[k], steps[k]),
    ensures
        forall|id: SessionId| #[trigger] states.last().holds_history_of(steps, id),
    decreases steps.len(),
{
    let n = steps.len() as int;
    if n == 0 {
        assert forall|id: SessionId| #[trigger] states.last().holds_history_of(steps, id) by {
            assert(states.last() == states[0]);
        }
    } else {
        let prev_states = states.drop_last();
        let prev_steps = steps.drop_last();
        assert forall|k: int| 0 <= k < prev_steps.len() implies (#[trigger] prev_states[k + 1]).step_taken(
            prev_states[k],
            prev_steps[k],
        ) by {
            assert(states[k + 1].step_taken(states[k], steps[k]));
        }
        lemma_store_history(prev_states, prev_steps);
        let k = n - 1;
        assert(states[k + 1].step_taken(states[k], steps[k]));
        let before = states[k];
        let after = states[k + 1];
        assert(before == prev_states.last());
        assert(after == states.last());
        assert(after.step_taken(before, steps[n - 1]));
        assert forall|id: SessionId| #[trigger] states.last().holds_history_of(steps, id) by {
            assert(before.holds_history_of(prev_steps, id));
            match steps[n - 1] {
                StoreStep::Saved { session, graph } => {
                    if session.id != id {
                        assert(after.session_table().contains_key(id) == before.session_table().contains_key(id));
                        if before.session_table().contains_key(id) {
                            assert(after.session_table()[id] == before.session_table()[id]);
                        }
                    }
                },
                StoreStep::Appended { id: i, events } => {
                    if i != id {
                        assert(after.log_table().contains_key(id) == before.log_table().contains_key(id));
                        if before.log_table().contains_key(id) {
                            assert(after.log_table()[id] == before.log_table()[id]);
                        }
                    }
                },
                StoreStep::Other => {},
            }
        }
    }
}

pub proof fn lemma_events_after_len(log: Seq<StoredRuntimeEventView>, after: i64, cap: nat)
    ensures
        events_after(log, after, cap).len() <= cap,
    decreases log.len(),
{
    if log.len() > 0 && cap > 0 {
        if log[0].seq > after {
            lemma_events_after_len(log.drop_first(), after, (cap - 1) as nat);
        } else {
            lemma_events_after_len(log.drop_first(), after, cap);
        }
    }
}

impl MemoryStore {
    /// The events of session `id` numbered after `after_seq` (after 0 when `None`), in
    /// order, at most `limit` of them and at least room for one.
    pub fn list_events(&self, id: SessionId, after_seq: Option<i64>, limit: usize) -> (r: Vec<
        StoredRuntimeEvent,
    >)
        requires
            self.wf(),
        ensures
            r@.map_values(|e: StoredRuntimeEvent| e@) == events_after(
                self.log_of(id),
                match after_seq {
                    Some(a) => a,
                    None => 0,
                },
                if limit == 0 {
                    1
                } else {
                    limit as nat
                },
            ),
            r@.map_values(|e: StoredRuntimeEvent| e@) == first_n(
                self.log_of(id).filter(
                    numbered_after(
                        match after_seq {
                            Some(a) => a,
                            None => 0,
                        },
                    ),
                ),
                if limit == 0 {
                    1
                } else {
                    limit as nat
                },
            ),
    {
        let after = match after_seq {
            Some(a) => a,
            None => 0,
        };
        let cap: usize = if limit == 0 {
            1
        } else {
            limit
        };
        proof {
            lemma_events_after_filter(self.log_of(id), after, cap as nat);
        }
        let mut r: Vec<StoredRuntimeEvent> = Vec::new();
        let li = match self.find_log(id) {
            Some(i) => i,
            None => {
                return r;
            },
        };
        let log = &self.logs[li].events;
        let ghost lv = log@.map_values(|e: StoredRuntimeEvent| e@);
        assert(lv == self.log_of(id));
        let mut j: usize = 0;
        proof {
            assert(lv.skip(0) =~= lv);
        }
        while j < log.len() && r.len() < cap
            invariant
                j <= log@.len(),
                lv == log@.map_values(|e: StoredRuntimeEvent| e@),
                r@.len() <= cap,
                r@.map_values(|e: StoredRuntimeEvent| e@) + events_after(
                    lv.skip(j as int),
                    after,
                    (cap - r@.len()) as nat,
                ) == events_after(lv, after, cap as nat),
            decreases log.len() - j,
        {
            let ghost before = r@.map_values(|e: StoredRuntimeEvent| e@);
            let ghost rest = lv.skip(j as int);
            assert(rest[0] == log@[j as int]@);
            assert(rest.drop_first() =~= lv.skip(j + 1));
            if log[j].seq > after {
                r.push(log[j].clone());
                assert(r@.map_values(|e: StoredRuntimeEvent| e@) =~= before.push(log@[j as int]@));
                assert(before.push(rest[0]) + events_after(rest.drop_first(), after, (cap - r@.len()) as nat)
                    =~= before + (seq![rest[0]] + events_after(rest.drop_first(), after, (cap - r@.len()) as nat)));
            }
            j = j + 1;
        }
        proof {
            if j >= log@.len() {
                assert(lv.skip(j as int).len() == 0);
            }
            assert(events_after(lv.skip(j as int), after, (cap - r@.len()) as nat) =~= Seq::<
                StoredRuntimeEventView,
            >::empty());
            assert(r@.map_values(|e: StoredRuntimeEvent| e@) + Seq::<StoredRuntimeEventView>::empty()
                =~= r@.map_values(|e: StoredRuntimeEvent| e@));
        }
        r
    }
}

fn is_listed_before(a: &SessionRecord, b: &SessionRecord) -> (r: bool)
    ensures
        r == listed_before(a@, b@),
{
    a.session.created_at > b.session.created_at || (a.session.created_at == b.session.created_at
        && a.session.id < b.session.id)
}

/// Records strictly in listing order.
pub open spec fn listed_in_order(rs: Seq<SessionRecord>) -> bool {
    forall|a: int, b: int| 0 <= a < b < rs.len() ==> listed_before(
        (#[trigger] rs[a])@,
        (#[trigger] rs[b])@,
    )
}

/// Puts `rec` in its place among records in listing order; gives back where.
fn insert_listed(out: &mut Vec<SessionRecord>, rec: SessionRecord) -> (p: usize)
    requires
        listed_in_order(old(out)@),
        forall|b: int| 0 <= b < old(out)@.len() ==> (#[trigger] old(out)@[b])@.session.id != rec@.session.id,
    ensures
        p <= old(out)@.len(),
        final(out)@ == old(out)@.insert(p as int, rec),
        listed_in_order(final(out)@),
{
    let ghost prev = out@;
    let ghost rv = rec@;
    let mut p: usize = 0;
    while p < out.len()
        invariant
            p <= out@.len(),
            out@ == prev,
            rec@ == rv,
            forall|b: int| 0 <= b < p ==> listed_before((#[trigger] prev[b])@, rv),
        ensures
            p <= out@.len(),
            out@ == prev,
            forall|b: int| 0 <= b < p ==> listed_before((#[trigger] prev[b])@, rv),
            p == out@.len() || !listed_before(prev[p as int]@, rv),
        decreases out.len() - p,
    {
        if !is_listed_before(&out[p], &rec) {
            break;
        }
        p = p + 1;
    }
    out.insert(p, rec);
    proof {
        assert(out@[p as int]@ == rv);
        assert forall|b: int| p < b < out@.len() implies listed_before(rv, (#[trigger] out@[b])@) by {
            assert(out@[b] == prev[b - 1]);
            if b - 1 > p {
                assert(listed_before(prev[p as int]@, prev[b - 1]@));
            }
        }
        assert forall|a: int, b: int| 0 <= a < b < out@.len() implies listed_before(
            (#[trigger] out@[a])@,
            (#[trigger] out@[b])@,
        ) by {
            if b < p {
                assert(out@[a] == prev[a] && out@[b] == prev[b]);
            } else if b == p {
                assert(out@[a] == prev[a]);
            } else if a < p {
                assert(out@[a] == prev[a]);
                assert(listed_before(rv, out@[b]@));
            } else if a == p {
            } else {
                assert(out@[a] == prev[a - 1] && out@[b] == prev[b - 1]);
            }
        }
    }
    p
}

/// Each of `out` is one of the first `i` of `recs`, and each of those is in `out`.
pub open spec fn covers<A>(out: Seq<A>, recs: Seq<A>, i: int) -> bool {
    &&& forall|b: int| 0 <= b < out.len() ==> exists|a: int|
        0 <= a < i && #[trigger] out[b] == #[trigger] recs[a]
    &&& forall|a: int| 0 <= a < i ==> exists|b: int|
        0 <= b < out.len() && #[trigger] out[b] == #[trigger] recs[a]
}

proof fn lemma_cover_insert<A>(prev: Seq<A>, out: Seq<A>, p: int, x: A, recs: Seq<A>, i: int)
    requires
        0 <= i < recs.len(),
        0 <= p <= prev.len(),
        out == prev.insert(p, x),
        x == recs[i],
        covers(prev, recs, i),
    ensures
        covers(out, recs, i + 1),
{
    assert forall|b: int| 0 <= b < out.len() implies exists|a: int|
        0 <= a < i + 1 && #[trigger] out[b] == #[trigger] recs[a] by {
        if b == p {
            assert(out[b] == recs[i]);
        } else if b < p {
            assert(out[b] == prev[b]);
            let a = choose|a: int| 0 <= a < i && #[trigger] prev[b] == #[trigger] recs[a];
            assert(out[b] == recs[a]);
        } else {
            assert(out[b] == prev[b - 1]);
            let a = choose|a: int| 0 <= a < i && #[trigger] prev[b - 1] == #[trigger] recs[a];
            assert(out[b] == recs[a]);
        }
    }
    assert forall|a: int| 0 <= a < i + 1 implies exists|b: int|
        0 <= b < out.len() && #[trigger] out[b] == #[trigger] recs[a] by {
        if a == i {
            assert(out[p] == recs[a]);
        } else {
            let b = choose|b: int| 0 <= b < prev.len() && #[trigger] prev[b] == #[trigger] recs[a];
            if b < p {
                assert(out[b] == prev[b]);
            } else {
                assert(out[b + 1] == prev[b]);
            }
        }
    }
}

impl MemoryStore {
    /// The records of the kept sessions, in the order they are kept.
    closed spec fn kept_records(&self) -> Seq<SessionRecordView> {
        Seq::new(
            self.sessions@.len(),
            |k: int| self.record(self.sessions@[k].session.id),
        )
    }

    proof fn lemma_kept_records(&self)
        requires
            self.wf(),
        ensures
            self.kept_records().len() == self.sessions@.len(),
            forall|k: int| 0 <= k < self.sessions@.len() ==> (#[trigger] self.kept_records()[k]).session.id
                == self.sessions@[k].session.id,
            forall|a: int, b: int| 0 <= a < b < self.sessions@.len() ==> (#[trigger] self.kept_records()[a]).session.id
                != (#[trigger] self.kept_records()[b]).session.id,
            forall|id: SessionId| #[trigger] self.session_table().contains_key(id) ==> exists|k: int|
                0 <= k < self.sessions@.len() && (#[trigger] self.kept_records()[k]).session.id == id,
            forall|k: int| 0 <= k < self.sessions@.len() ==> self.session_table().contains_key(
                (#[trigger] self.kept_records()[k]).session.id,
            ) && self.kept_records()[k] == self.record(self.kept_records()[k].session.id),
    {
        assert forall|k: int| 0 <= k < self.sessions@.len() implies (#[trigger] self.kept_records()[k]).session.id
            == self.sessions@[k].session.id by {
            self.lemma_session_index(k);
        }
        assert forall|id: SessionId| #[trigger] self.session_table().contains_key(id) implies exists|k: int|
            0 <= k < self.sessions@.len() && (#[trigger] self.kept_records()[k]).session.id == id by {
            let k = self.session_index(id);
            self.lemma_session_index(k);
            assert(self.kept_records()[k].session.id == self.sessions@[k].session.id);
        }
        assert forall|k: int| 0 <= k < self.sessions@.len() implies self.session_table().contains_key(
            (#[trigger] self.kept_records()[k]).session.id,
        ) && self.kept_records()[k] == self.record(self.kept_records()[k].session.id) by {
            self.lemma_session_index(k);
        }
    }

    /// The record of every stored session, newest first (by creation time, then id).
    pub fn list_sessions(&self) -> (r: Vec<SessionRecord>)
        requires
            self.wf(),
        ensures
            forall|i: int| 0 <= i < r@.len() ==> self.session_table().contains_key(
                (#[trigger] r@[i])@.session.id,
            ) && r@[i]@ == self.record(r@[i]@.session.id),
            forall|id: SessionId| self.session_table().contains_key(id) ==> exists|i: int|
                0 <= i < r@.len() && (#[trigger] r@[i])@.session.id == id,
            listed_in_order(r@),
    {
        let ghost recs = self.kept_records();
        proof {
            self.lemma_kept_records();
        }
        let mut out: Vec<SessionRecord> = Vec::new();
        let mut i: usize = 0;
        while i < self.sessions.len()
            invariant
                self.wf(),
                i <= self.sessions@.len(),
                recs == self.kept_records(),
                recs.len() == self.sessions@.len(),
                forall|a: int, b: int| 0 <= a < b < recs.len() ==> (#[trigger] recs[a]).session.id
                    != (#[trigger] recs[b]).session.id,
                covers(out@.map_values(|r: SessionRecord| r@), recs, i as int),
                listed_in_order(out@),
            decreases self.sessions.len() - i,
        {
            let rec = self.record_at(i);
            let ghost prev = out@.map_values(|r: SessionRecord| r@);
            proof {
                assert(rec@ == recs[i as int]);
                assert forall|b: int| 0 <= b < out@.len() implies (#[trigger] out@[b])@.session.id
                    != rec@.session.id by {
                    assert(prev[b] == out@[b]@);
                    let a = choose|a: int| 0 <= a < i && #[trigger] prev[b] == #[trigger] recs[a];
                    assert(recs[a].session.id != recs[i as int].session.id);
                }
            }
            let ghost x = rec@;
            let p = insert_listed(&mut out, rec);
            proof {
                assert(out@.map_values(|r: SessionRecord| r@) =~= prev.insert(p as int, x));
                lemma_cover_insert(prev, out@.map_values(|r: SessionRecord| r@), p as int, x, recs, i as int);
            }
            i = i + 1;
        }
        proof {
            assert forall|b: int| 0 <= b < out@.len() implies self.session_table().contains_key(
                (#[trigger] out@[b])@.session.id,
            ) && out@[b]@ == self.record(out@[b]@.session.id) by {
                let ov = out@.map_values(|r: SessionRecord| r@);
                assert(ov[b] == out@[b]@);
                let a = choose|a: int| 0 <= a < recs.len() && #[trigger] ov[b] == #[trigger] recs[a];
                assert(self.kept_records()[a] == recs[a]);
            }
            assert forall|id: SessionId| self.session_table().contains_key(id) implies exists|b: int|
                0 <= b < out@.len() && (#[trigger] out@[b])@.session.id == id by {
                let k = choose|k: int| 0 <= k < self.sessions@.len() && (#[trigger] self.kept_records()[k]).session.id == id;
                let ov = out@.map_values(|r: SessionRecord| r@);
                let b = choose|b: int| 0 <= b < ov.len() && #[trigger] ov[b] == #[trigger] recs[k];
                assert(out@[b]@ == ov[b]);
            }
        }
        out
    }
}

impl MemoryStore {
    /// Saves `config` under its source and name, replacing the one it had; gives it back.
    pub fn upsert_capability_config(&mut self, config: CapabilityConfig) -> (r: CapabilityConfig)
        requires
            old(self).wf(),
        ensures
            final(self).wf(),
            r@ == config@,
            final(self).configs_of(config.source) == inserted_by(
                old(self).configs_of(config.source),
                config@,
                config_key(),
            ),
            forall|s: CapabilitySource| s != config.source ==> #[trigger] final(self).configs_of(s)
                == old(self).configs_of(s),
            final(self).session_table() == old(self).session_table(),
            final(self).log_table() == old(self).log_table(),
            final(self).step_taken(*old(self), StoreStep::Other),
    {
        let ghost old_store = *self;
        let ghost c = config;
        let ghost src = config.source;
        let ghost old_items = self.configs.bucket(config.source)@;
        assert(old_store.configs.bucket(src).wf());
        let r = config.clone();
        match config.source {
            CapabilitySource::Agent => self.configs.agent.insert(config),
            CapabilitySource::Builtin => self.configs.builtin.insert(config),
            CapabilitySource::Mcp => self.configs.mcp.insert(config),
            CapabilitySource::Plugin => self.configs.plugin.insert(config),
            CapabilitySource::Skill => self.configs.skill.insert(config),
        }
        proof {
            crate::index::lemma_inserted_map(
                old_items,
                c,
                crate::index::name_key::<CapabilityConfig>(),
                |x: CapabilityConfig| x@,
                config_key(),
            );
            assert(self.sessions@ == old_store.sessions@);
            assert(self.logs@ == old_store.logs@);
            assert(self.session_table() =~= old_store.session_table());
            assert(self.log_table() =~= old_store.log_table());
            let items = self.configs.bucket(src)@;
            assert(items == crate::index::inserted_by(old_items, c, crate::index::name_key::<CapabilityConfig>()));
            assert forall|k: int| 0 <= k < items.len() implies (#[trigger] items[k]).source == src by {
                let key = crate::index::name_key::<CapabilityConfig>();
                if crate::index::has_key_by(old_items, key(c), key) {
                    let j = crate::index::key_index_by(old_items, key(c), key);
                    if k != j {
                        assert(items[k] == old_items[k]);
                    }
                } else {
                    let rk = crate::index::rank_by(old_items, key(c), key) as int;
                    crate::index::lemma_rank_bounded(old_items, key(c), key);
                    old_items.insert_ensures(rk, c);
                    if k < rk {
                        assert(items[k] == old_items[k]);
                    } else if k > rk {
                        assert(items[k] == old_items[k - 1]);
                    }
                }
            }
            assert forall|s: CapabilitySource, k: int|
                0 <= k < self.configs.bucket(s)@.len() implies (#[trigger] self.configs.bucket(s)@[k]).source == s by {
                if s != src {
                    assert(self.configs.bucket(s) == old_store.configs.bucket(s));
                }
            }
            assert forall|s: CapabilitySource| #[trigger] self.configs.bucket(s).wf() by {
                if s != src {
                    assert(self.configs.bucket(s) == old_store.configs.bucket(s));
                }
            }
        }
        r
    }

    /// Every configuration, in ascending order of source name, then of capability name.
    pub fn list_capability_configs(&self) -> (r: Vec<CapabilityConfig>)
        requires
            self.wf(),
        ensures
            r@.map_values(|c: CapabilityConfig| c@) == self.configs_view(),
    {
        let mut r: Vec<CapabilityConfig> = Vec::new();
        append_configs(&mut r, self.configs.bucket_ref(CapabilitySource::Agent));
        append_configs(&mut r, self.configs.bucket_ref(CapabilitySource::Builtin));
        append_configs(&mut r, self.configs.bucket_ref(CapabilitySource::Mcp));
        append_configs(&mut r, self.configs.bucket_ref(CapabilitySource::Plugin));
        append_configs(&mut r, self.configs.bucket_ref(CapabilitySource::Skill));
        assert(Seq::<CapabilityConfigView>::empty() + self.configs_of(CapabilitySource::Agent)
            =~= self.configs_of(CapabilitySource::Agent));
        r
    }

    /// Saves a session with its graph, then appends its events; gives back what it
    /// appended.
    pub fn save_snapshot(&mut self, session: &Session, graph: &TaskGraph, events: &[RuntimeEvent]) -> (r: Vec<
        StoredRuntimeEvent,
    >)
        requires
            old(self).wf(),
            old(self).session_table().contains_key(session.id) ==> old(self).session_table()[session.id].graph_version
                < i64::MAX,
            old(self).log_of(session.id).len() + events@.len() <= i64::MAX,
        ensures
            final(self).wf(),
            final(self).session_table() == old(self).session_table().insert(
                session.id,
                final(self).session_table()[session.id],
            ),
            final(self).session_table()[session.id].session == session@,
            final(self).session_table()[session.id].graph == graph@,
            final(self).session_table()[session.id].graph_version == next_graph_version(
                old(self).session_table(),
                session.id,
            ),
            r@.len() == events@.len(),
            forall|k: int| 0 <= k < r@.len() ==> (#[trigger] r@[k])@ == (StoredRuntimeEventView {
                seq: (old(self).log_of(session.id).len() + k + 1) as i64,
                event: events@[k]@,
            }),
            final(self).log_table() == old(self).log_table().insert(
                session.id,
                old(self).log_of(session.id) + r@.map_values(|e: StoredRuntimeEvent| e@),
            ),
            forall|s: CapabilitySource| #[trigger] final(self).configs_of(s) == old(self).configs_of(s),
    {
        self.save_session(session, graph);
        self.append_events(session.id, events)
    }

    /// Saves a session, which this store keeps only together with a graph.
    pub fn save_session_with(&mut self, session: &Session, graph: Option<&TaskGraph>) -> (r: Result<(), StoreError>)
        requires
            old(self).wf(),
            old(self).session_table().contains_key(session.id) ==> old(self).session_table()[session.id].graph_version
                < i64::MAX,
        ensures
            final(self).wf(),
            r is Err <==> graph is None,
            r is Err ==> r == Err::<(), StoreError>(StoreError::GraphRequired) && *final(self) == *old(self),
            graph matches Some(g) ==> {
                &&& final(self).session_table() == old(self).session_table().insert(
                    session.id,
                    final(self).session_table()[session.id],
                )
                &&& final(self).session_table()[session.id].session == session@
                &&& final(self).session_table()[session.id].graph == g@
                &&& final(self).session_table()[session.id].graph_version == next_graph_version(
                    old(self).session_table(),
                    session.id,
                )
            },
            final(self).log_table() == old(self).log_table(),
            forall|s: CapabilitySource| #[trigger] final(self).configs_of(s) == old(self).configs_of(s),
    {
        match graph {
            Some(g) => {
                self.save_session(session, g);
                Ok(())
            },
            None => Err(StoreError::GraphRequired),
        }
    }
}

fn append_configs(r: &mut Vec<CapabilityConfig>, bucket: &NameIndex<CapabilityConfig>)
    ensures
        final(r)@.map_values(|c: CapabilityConfig| c@) == old(r)@.map_values(
            |c: CapabilityConfig| c@,
        ) + bucket@.map_values(|c: CapabilityConfig| c@),
{
    let items = bucket.values();
    let ghost start = r@.map_values(|c: CapabilityConfig| c@);
    let mut i: usize = 0;
    while i < items.len()
        invariant
            i <= items@.len(),
            items@ == bucket@,
            r@.map_values(|c: CapabilityConfig| c@) =~= start + items@.take(i as int).map_values(
                |c: CapabilityConfig| c@,
            ),
        decreases items.len() - i,
    {
        let ghost before = r@.map_values(|c: CapabilityConfig| c@);
        r.push(items[i].clone());
        assert(r@.map_values(|c: CapabilityConfig| c@) =~= before.push(items@[i as int]@));
        assert(items@.take(i + 1).map_values(|c: CapabilityConfig| c@) =~= items@.take(
            i as int,
        ).map_values(|c: CapabilityConfig| c@).push(items@[i as int]@));
        i = i + 1;
    }
    assert(items@.take(items@.len() as int) =~= items@);
}

impl MemoryStore {
    /// Every graph can take one more version, and every log `n` more events.
    pub open spec fn has_room(&self, n: nat) -> bool {
        &&& n <= i64::MAX
        &&& forall|id: SessionId| #[trigger] self.session_table().contains_key(id) ==> self.session_table()[id].graph_version < i64::MAX
        &&& forall|id: SessionId| #[trigger] self.log_of(id).len() + n <= i64::MAX
    }

    pub proof fn lemma_room(&self, id: SessionId, n: nat)
        requires
            self.has_room(n),
        ensures
            self.session_table().contains_key(id) ==> self.session_table()[id].graph_version < i64::MAX,
            self.log_of(id).len() + n <= i64::MAX,
    {
    }

    /// Whether every graph can take one more version and every log `n` more events.
    pub fn room_for(&self, n: usize) -> (r: bool)
        requires
            self.wf(),
        ensures
            r == self.has_room(n as nat),
    {
        if n as u128 > 9223372036854775807u128 {
            return false;
        }
        let mut i: usize = 0;
        while i < self.sessions.len()
            invariant
                self.wf(),
                n <= i64::MAX,
                i <= self.sessions@.len(),
                forall|k: int| 0 <= k < i ==> (#[trigger] self.sessions@[k]).graph_version < i64::MAX,
            decreases self.sessions.len() - i,
        {
            if self.sessions[i].graph_version == i64::MAX {
                proof {
                    self.lemma_session_index(i as int);
                }
                return false;
            }
            i = i + 1;
        }
        let mut j: usize = 0;
        while j < self.logs.len()
            invariant
                self.wf(),
                n <= i64::MAX,
                forall|k: int| 0 <= k < self.sessions@.len() ==> (#[trigger] self.sessions@[k]).graph_version < i64::MAX,
                j <= self.logs@.len(),
                forall|k: int| 0 <= k < j ==> (#[trigger] self.logs@[k]).events@.len() + n <= i64::MAX,
            decreases self.logs.len() - j,
        {
            let len = self.logs[j].events.len();
            if (len as u128) + (n as u128) > 9223372036854775807u128 {
                proof {
                    self.lemma_log_index(j as int);
                    let id = self.logs@[j as int].session_id;
                    assert(self.log_of(id).len() == len);
                    assert(!(self.log_of(id).len() + n <= i64::MAX));
                }
                return false;
            }
            j = j + 1;
        }
        proof {
            assert forall|id: SessionId| #[trigger] self.session_table().contains_key(id) implies self.session_table()[id].graph_version
                < i64::MAX by {
                let k = self.session_index(id);
                self.lemma_session_index(k);
            }
            assert forall|id: SessionId| #[trigger] self.log_of(id).len() + n <= i64::MAX by {
                if self.log_table().contains_key(id) {
                    let k = self.log_index(id);
                    self.lemma_log_index(k);
                }
            }
        }
        true
    }
}

} // verus!
