//! What the HTTP interface decides: how a capability source is named in a path, what
//! its errors are, and how events and graphs are described.
use vstd::prelude::*;

use crate::domain::{CapabilitySource, RuntimeEventKind, RuntimeEventKindView, TaskGraph, TaskId, TaskNodeView};
use crate::text::{owned, text_eq};

verus! {

/// An error answered over HTTP: its status code and message.
#[derive(Debug, PartialEq, Eq)]
pub struct ApiError {
    pub status: u16,
    pub message: String,
}

impl ApiError {
    /// 404 with `message`.
    pub fn not_found(message: &str) -> (r: Self)
        ensures
            r.status == 404,
            r.message@ == message@,
    {
        ApiError { status: 404, message: owned(message) }
    }

    /// 400 with `message`.
    pub fn bad_request(message: &str) -> (r: Self)
        ensures
            r.status == 400,
            r.message@ == message@,
    {
        ApiError { status: 400, message: owned(message) }
    }

    /// 500 with `message`: what any other failure becomes.
    pub fn internal(message: String) -> (r: Self)
        ensures
            r.status == 500,
            r.message@ == message@,
    {
        ApiError { status: 500, message }
    }
}

/// The body of a request to plan a new session.
#[derive(Debug)]
pub struct CreateSessionRequest {
    pub objective: String,
}

/// The source a path segment names: the variant's name, or the same in lower case.
pub open spec fn source_of_segment(s: Seq<char>) -> Option<CapabilitySource> {
    if s == "Builtin"@ || s == "builtin"@ {
        Some(CapabilitySource::Builtin)
    } else if s == "Plugin"@ || s == "plugin"@ {
        Some(CapabilitySource::Plugin)
    } else if s == "Mcp"@ || s == "mcp"@ {
        Some(CapabilitySource::Mcp)
    } else if s == "Skill"@ || s == "skill"@ {
        Some(CapabilitySource::Skill)
    } else if s == "Agent"@ || s == "agent"@ {
        Some(CapabilitySource::Agent)
    } else {
        None
    }
}

/// Reads a capability source from a path segment; any other text is a bad request.
pub fn parse_source(source: &str) -> (r: Result<CapabilitySource, ApiError>)
    ensures
        match source_of_segment(source@) {
            Some(s) => r == Ok::<CapabilitySource, ApiError>(s),
            None => r matches Err(e) && e.status == 400 && e.message@
                == "unknown capability source"@,
        },
{
    if text_eq(source, "Builtin") || text_eq(source, "builtin") {
        Ok(CapabilitySource::Builtin)
    } else if text_eq(source, "Plugin") || text_eq(source, "plugin") {
        Ok(CapabilitySource::Plugin)
    } else if text_eq(source, "Mcp") || text_eq(source, "mcp") {
        Ok(CapabilitySource::Mcp)
    } else if text_eq(source, "Skill") || text_eq(source, "skill") {
        Ok(CapabilitySource::Skill)
    } else if text_eq(source, "Agent") || text_eq(source, "agent") {
        Ok(CapabilitySource::Agent)
    } else {
        Err(ApiError::bad_request("unknown capability source"))
    }
}

/// The type name an event kind is published under.
pub open spec fn event_type_name(kind: RuntimeEventKindView) -> Seq<char> {
    match kind {
        RuntimeEventKindView::SessionCreated { .. } => "session.created"@,
        RuntimeEventKindView::PhaseChanged { .. } => "phase.changed"@,
        RuntimeEventKindView::PlanCreated { .. } => "plan.created"@,
        RuntimeEventKindView::TaskStatusChanged { .. } => "task.statusChanged"@,
        RuntimeEventKindView::ToolCallStarted { .. } => "tool.started"@,
        RuntimeEventKindView::ToolCallFinished { .. } => "tool.finished"@,
        RuntimeEventKindView::ApprovalRequested { .. } => "approval.requested"@,
        RuntimeEventKindView::ApprovalResolved { .. } => "approval.resolved"@,
        RuntimeEventKindView::Message { .. } => "message"@,
        RuntimeEventKindView::Error { .. } => "error"@,
    }
}

/// The type name an event kind is published under.
pub fn event_kind_type(kind: &RuntimeEventKind) -> (r: &'static str)
    ensures
        r@ == event_type_name(kind@),
{
    match kind {
        RuntimeEventKind::SessionCreated { .. } => "session.created",
        RuntimeEventKind::PhaseChanged { .. } => "phase.changed",
        RuntimeEventKind::PlanCreated { .. } => "plan.created",
        RuntimeEventKind::TaskStatusChanged { .. } => "task.statusChanged",
        RuntimeEventKind::ToolCallStarted { .. } => "tool.started",
        RuntimeEventKind::ToolCallFinished { .. } => "tool.finished",
        RuntimeEventKind::ApprovalRequested { .. } => "approval.requested",
        RuntimeEventKind::ApprovalResolved { .. } => "approval.resolved",
        RuntimeEventKind::Message { .. } => "message",
        RuntimeEventKind::Error { .. } => "error",
    }
}

/// The edges of the graph of `nodes`: for each node in order, one edge from each of its
/// dependencies, in order, to it.
pub open spec fn edges_of(nodes: Seq<TaskNodeView>) -> Seq<(TaskId, TaskId)>
    decreases nodes.len(),
{
    if nodes.len() == 0 {
        Seq::empty()
    } else {
        edges_of(nodes.drop_last()) + nodes.last().dependencies.map_values(
            |d: TaskId| (d, nodes.last().id),
        )
    }
}

/// The dependency edges of a graph, from dependency to dependent.
pub fn graph_edges(graph: &TaskGraph) -> (r: Vec<(TaskId, TaskId)>)
    ensures
        r@ == edges_of(graph@.nodes),
{
    let ghost nodes = graph@.nodes;
    let mut r: Vec<(TaskId, TaskId)> = Vec::new();
    let mut i: usize = 0;
    while i < graph.nodes.len()
        invariant
            i <= graph.nodes@.len(),
            nodes == graph@.nodes,
            r@ == edges_of(nodes.take(i as int)),
        decreases graph.nodes.len() - i,
    {
        let node = &graph.nodes[i];
        let ghost start = r@;
        let mut k: usize = 0;
        while k < node.dependencies.len()
            invariant
                k <= node.dependencies@.len(),
                r@ == start + node.dependencies@.take(k as int).map_values(
                    |d: TaskId| (d, node.id),
                ),
            decreases node.dependencies.len() - k,
        {
            r.push((node.dependencies[k], node.id));
            assert(node.dependencies@.take(k + 1).map_values(|d: TaskId| (d, node.id))
                =~= node.dependencies@.take(k as int).map_values(|d: TaskId| (d, node.id)).push(
                (node.dependencies@[k as int], node.id),
            ));
            k = k + 1;
        }
        proof {
            assert(node.dependencies@.take(node.dependencies@.len() as int) =~= node.dependencies@);
            assert(nodes.take(i + 1).drop_last() =~= nodes.take(i as int));
            assert(nodes.take(i + 1).last() == node@);
        }
        i = i + 1;
    }
    assert(nodes.take(graph.nodes@.len() as int) =~= nodes);
    r
}

} // verus!
