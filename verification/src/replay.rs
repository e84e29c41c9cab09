//! Stored events and their replay into frames of session state.
use vstd::prelude::*;

use crate::domain::{
    counts_map, count_status, RuntimeEvent, RuntimeEventKind, RuntimeEventKindView,
    RuntimeEventView, SessionPhase, StatusCounts, TaskGraph, TaskGraphView, TaskStatus, Timestamp,
};

verus! {

pub struct StoredRuntimeEventView {
    pub seq: i64,
    pub event: RuntimeEventView,
}

/// An event as the store keeps it: with its place in the session's log, from 1.
#[derive(Debug)]
pub struct StoredRuntimeEvent {
    pub seq: i64,
    pub event: RuntimeEvent,
}

impl View for StoredRuntimeEvent {
    type V = StoredRuntimeEventView;

    open spec fn view(&self) -> StoredRuntimeEventView {
        StoredRuntimeEventView { seq: self.seq, event: self.event@ }
    }
}

impl StoredRuntimeEvent {
    pub fn from_event(seq: i64, event: RuntimeEvent) -> (r: Self)
        ensures
            r@ == (StoredRuntimeEventView { seq, event: event@ }),
    {
        StoredRuntimeEvent { seq, event }
    }
}

impl Clone for StoredRuntimeEvent {
    fn clone(&self) -> (r: Self)
        ensures
            r@ == self@,
    {
        StoredRuntimeEvent { seq: self.seq, event: self.event.clone() }
    }
}

pub struct ReplayFrameView {
    pub seq: i64,
    pub at: Timestamp,
    pub event: RuntimeEventKindView,
    pub phase: Option<SessionPhase>,
    pub status_counts: Map<TaskStatus, nat>,
}

/// The state of a session right after one of its events.
#[derive(Debug)]
pub struct ReplayFrame {
    pub seq: i64,
    pub at: Timestamp,
    pub event: RuntimeEventKind,
    pub phase: Option<SessionPhase>,
    pub status_counts: StatusCounts,
}

impl View for ReplayFrame {
    type V = ReplayFrameView;

    open spec fn view(&self) -> ReplayFrameView {
        ReplayFrameView {
            seq: self.seq,
            at: self.at,
            event: self.event@,
            phase: self.phase,
            status_counts: self.status_counts@,
        }
    }
}

/// What replay tracks: the last phase seen and the task status counts.
pub struct ReplayState {
    pub phase: Option<SessionPhase>,
    pub counts: Map<TaskStatus, nat>,
}

/// The state before any event: no phase, and the counts of the graph's tasks (none
/// without a graph).
pub open spec fn replay_start(graph: Option<TaskGraphView>) -> ReplayState {
    ReplayState {
        phase: None,
        counts: match graph {
            Some(g) => counts_map(|s: TaskStatus| count_status(g.nodes, s)),
            None => Map::empty(),
        },
    }
}

/// A phase change sets the phase; a task status change replaces the counts by one task
/// in the new status; any other event changes nothing.
pub open spec fn replay_step(st: ReplayState, kind: RuntimeEventKindView) -> ReplayState {
    match kind {
        RuntimeEventKindView::PhaseChanged { phase } => ReplayState { phase: Some(phase), ..st },
        RuntimeEventKindView::TaskStatusChanged { status } => ReplayState {
            counts: Map::empty().insert(status, 1),
            ..st
        },
        _ => st,
    }
}

/// The frame of an event after which the session is in `st`.
pub open spec fn frame_of(e: StoredRuntimeEventView, st: ReplayState) -> ReplayFrameView {
    ReplayFrameView {
        seq: e.seq,
        at: e.event.at,
        event: e.event.kind,
        phase: st.phase,
        status_counts: st.counts,
    }
}

/// Replays `events` from `start`, skipping events after `until`: the state reached and
/// one frame per replayed event, in order.
pub open spec fn replay_run(
    start: ReplayState,
    events: Seq<StoredRuntimeEventView>,
    until: i64,
) -> (ReplayState, Seq<ReplayFrameView>)
    decreases events.len(),
{
    if events.len() == 0 {
        (start, Seq::empty())
    } else {
        let (st, frames) = replay_run(start, events.drop_last(), until);
        let e = events.last();
        if e.seq <= until {
            let next = replay_step(st, e.event.kind);
            (next, frames.push(frame_of(e, next)))
        } else {
            (st, frames)
        }
    }
}

/// The frames of replaying `events` over `graph` up to `until_seq` (all, when `None`).
pub open spec fn replay_frames(
    graph: Option<TaskGraphView>,
    events: Seq<StoredRuntimeEventView>,
    until_seq: Option<i64>,
) -> Seq<ReplayFrameView> {
    replay_run(
        replay_start(graph),
        events,
        match until_seq {
            Some(u) => u,
            None => i64::MAX,
        },
    ).1
}

/// Replaying a prefix of the events gives a prefix of the frames.
proof fn lemma_run_prefix(start: ReplayState, events: Seq<StoredRuntimeEventView>, n: int, until: i64)
    requires
        0 <= n <= events.len(),
    ensures
        replay_run(start, events.take(n), until).1.is_prefix_of(replay_run(start, events, until).1),
    decreases events.len(),
{
    if n == events.len() {
        assert(events.take(n) =~= events);
    } else {
        let init = events.drop_last();
        assert(init.take(n) =~= events.take(n));
        lemma_run_prefix(start, init, n, until);
        let short = replay_run(start, events.take(n), until).1;
        let mid = replay_run(start, init, until).1;
        let all = replay_run(start, events, until).1;
        assert(mid.is_prefix_of(all)) by {
            assert(all.subrange(0, mid.len() as int) =~= mid);
        }
        assert(all.subrange(0, short.len() as int) =~= mid.subrange(0, short.len() as int));
    }
}

/// Replay only ever adds frames: the frames of replaying the first `n` events are the
/// first frames of replaying them all, up to the same sequence number.
pub proof fn lemma_replay_prefix(
    graph: Option<TaskGraphView>,
    events: Seq<StoredRuntimeEventView>,
    n: int,
    until_seq: Option<i64>,
)
    requires
        0 <= n <= events.len(),
    ensures
        replay_frames(graph, events.take(n), until_seq).is_prefix_of(
            replay_frames(graph, events, until_seq),
        ),
{
    lemma_run_prefix(
        replay_start(graph),
        events,
        n,
        match until_seq {
            Some(u) => u,
            None => i64::MAX,
        },
    );
}

/// Replaying with no limit gives one frame per event, in order: the frame of each event
/// carries its sequence number, its time and what happened.
pub proof fn lemma_replay_all(graph: Option<TaskGraphView>, events: Seq<StoredRuntimeEventView>)
    ensures
        replay_frames(graph, events, None).len() == events.len(),
        forall|k: int|
            0 <= k < events.len() ==> {
                let f = #[trigger] replay_frames(graph, events, None)[k];
                &&& f.seq == events[k].seq
                &&& f.at == events[k].event.at
                &&& f.event == events[k].event.kind
            },
    decreases events.len(),
{
    if events.len() > 0 {
        let init = events.drop_last();
        lemma_replay_all(graph, init);
        let frames = replay_frames(graph, events, None);
        let before = replay_frames(graph, init, None);
        assert forall|k: int| 0 <= k < events.len() implies {
            let f = #[trigger] frames[k];
            &&& f.seq == events[k].seq
            &&& f.at == events[k].event.at
            &&& f.event == events[k].event.kind
        } by {
            if k < init.len() {
                assert(frames[k] == before[k]);
                assert(init[k] == events[k]);
            }
        }
    }
}

/// Without a task status change, replay never touches the counts it started from.
proof fn lemma_run_keeps_counts(start: ReplayState, events: Seq<StoredRuntimeEventView>, until: i64)
    requires
        forall|j: int| 0 <= j < events.len() ==> !((#[trigger] events[j]).event.kind is TaskStatusChanged),
    ensures
        replay_run(start, events, until).0.counts == start.counts,
        forall|k: int| 0 <= k < replay_run(start, events, until).1.len() ==> (#[trigger] replay_run(
            start,
            events,
            until,
        ).1[k]).status_counts == start.counts,
    decreases events.len(),
{
    if events.len() > 0 {
        let init = events.drop_last();
        assert forall|j: int| 0 <= j < init.len() implies !((#[trigger] init[j]).event.kind is TaskStatusChanged) by {
            assert(init[j] == events[j]);
        }
        lemma_run_keeps_counts(start, init, until);
        assert(!(events[events.len() - 1].event.kind is TaskStatusChanged));
    }
}

/// Until a task status changes, every frame counts the tasks of the session's graph in
/// each status (no task at all without a graph): replay starts from the graph.
pub proof fn lemma_replay_counts_from_graph(
    graph: Option<TaskGraphView>,
    events: Seq<StoredRuntimeEventView>,
    until_seq: Option<i64>,
    k: int,
)
    requires
        0 <= k < replay_frames(graph, events, until_seq).len(),
        forall|j: int| 0 <= j < events.len() ==> !((#[trigger] events[j]).event.kind is TaskStatusChanged),
    ensures
        match graph {
            Some(g) => forall|s: TaskStatus|
                (#[trigger] replay_frames(graph, events, until_seq)[k].status_counts.dom().contains(s))
                    == (count_status(g.nodes, s) > 0) && (count_status(g.nodes, s) > 0
                    ==> replay_frames(graph, events, until_seq)[k].status_counts[s] == count_status(
                    g.nodes,
                    s,
                )),
            None => replay_frames(graph, events, until_seq)[k].status_counts == Map::<
                TaskStatus,
                nat,
            >::empty(),
        },
{
    let until = match until_seq {
        Some(u) => u,
        None => i64::MAX,
    };
    lemma_run_keeps_counts(replay_start(graph), events, until);
}

/// With no limit, frame `k` counts the graph's tasks in each status as long as none of
/// the first `k + 1` events changes a task's status.
pub proof fn lemma_replay_counts_before_change(
    graph: Option<TaskGraphView>,
    events: Seq<StoredRuntimeEventView>,
    k: int,
)
    requires
        0 <= k < events.len(),
        forall|j: int| 0 <= j <= k ==> !((#[trigger] events[j]).event.kind is TaskStatusChanged),
    ensures
        replay_frames(graph, events, None).len() == events.len(),
        match graph {
            Some(g) => forall|s: TaskStatus|
                (#[trigger] replay_frames(graph, events, None)[k].status_counts.dom().contains(s))
                    == (count_status(g.nodes, s) > 0) && (count_status(g.nodes, s) > 0
                    ==> replay_frames(graph, events, None)[k].status_counts[s] == count_status(
                    g.nodes,
                    s,
                )),
            None => replay_frames(graph, events, None)[k].status_counts == Map::<TaskStatus, nat>::empty(),
        },
{
    let pre = events.take(k + 1);
    lemma_replay_all(graph, events);
    lemma_replay_all(graph, pre);
    lemma_replay_prefix(graph, events, k + 1, None);
    assert forall|j: int| 0 <= j < pre.len() implies !((#[trigger] pre[j]).event.kind is TaskStatusChanged) by {
        assert(pre[j] == events[j]);
    }
    lemma_replay_counts_from_graph(graph, pre, None, k);
    assert(replay_frames(graph, pre, None)[k] == replay_frames(graph, events, None)[k]);
}

pub open spec fn opt_graph_ref_view(g: Option<&TaskGraph>) -> Option<TaskGraphView> {
    match g {
        Some(g) => Some(g@),
        None => None,
    }
}

/// Replays the events with a sequence number up to `until_seq` (all, when `None`), in
/// order: each frame holds the phase of the last phase change so far and the task
/// status counts, which start from the graph and become one task in the new status at
/// each task status change.
pub fn fold_replay(
    graph: Option<&TaskGraph>,
    events: Vec<StoredRuntimeEvent>,
    until_seq: Option<i64>,
) -> (r: Vec<ReplayFrame>)
    ensures
        r@.map_values(|f: ReplayFrame| f@) == replay_frames(
            opt_graph_ref_view(graph),
            events@.map_values(|e: StoredRuntimeEvent| e@),
            until_seq,
        ),
{
    let ghost evs = events@.map_values(|e: StoredRuntimeEvent| e@);
    let until = match until_seq {
        Some(u) => u,
        None => i64::MAX,
    };
    let ghost start = replay_start(opt_graph_ref_view(graph));
    let mut phase: Option<SessionPhase> = None;
    let mut counts = match graph {
        Some(g) => g.status_counts(),
        None => StatusCounts::empty(),
    };
    let mut frames: Vec<ReplayFrame> = Vec::new();
    let mut i: usize = 0;
    while i < events.len()
        invariant
            i <= events@.len(),
            evs == events@.map_values(|e: StoredRuntimeEvent| e@),
            until == match until_seq {
                Some(u) => u,
                None => i64::MAX,
            },
            replay_run(start, evs.take(i as int), until).0 == (ReplayState {
                phase,
                counts: counts@,
            }),
            frames@.map_values(|f: ReplayFrame| f@) == replay_run(
                start,
                evs.take(i as int),
                until,
            ).1,
        decreases events.len() - i,
    {
        let stored = &events[i];
        assert(evs.take(i + 1).drop_last() =~= evs.take(i as int));
        assert(evs.take(i + 1).last() == stored@);
        if stored.seq <= until {
            match &stored.event.kind {
                RuntimeEventKind::PhaseChanged { phase: next_phase } => {
                    phase = Some(*next_phase);
                },
                RuntimeEventKind::TaskStatusChanged { status } => {
                    counts = StatusCounts::single(*status);
                },
                _ => {},
            }
            let frame = ReplayFrame {
                seq: stored.seq,
                at: stored.event.at,
                event: stored.event.kind.clone(),
                phase,
                status_counts: counts.clone(),
            };
            let ghost before = frames@.map_values(|f: ReplayFrame| f@);
            frames.push(frame);
            assert(frames@.map_values(|f: ReplayFrame| f@) =~= before.push(frame@));
        }
        i = i + 1;
    }
    assert(evs.take(events@.len() as int) =~= evs);
    frames
}

} // verus!
