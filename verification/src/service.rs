//! The runtime service: plans sessions and keeps them, with their events and the
//! configuration of capabilities, in a store.
use vstd::prelude::*;

use crate::clock::now_nanos;
use crate::domain::{
    clone_opt_text, opt_text_view, CapabilityRef, CapabilityRefView, CapabilitySource, SessionId,
    TaskGraph, Timestamp,
};
use crate::plugins::permission_name;
use crate::registry::{CapabilityDescriptor, CapabilityDescriptorView};
use crate::replay::{
    fold_replay, opt_graph_ref_view, replay_frames, ReplayFrame, ReplayFrameView,
    StoredRuntimeEvent, StoredRuntimeEventView,
};
use crate::runtime::{is_plan_of, opt_graph_view, Runtime, RuntimeSnapshot};
use crate::store::{
    config_key, events_after, next_graph_version, CapabilityConfig, CapabilityConfigView,
    MemoryStore, SessionRecord, StoreError,
};
use crate::text::owned;

verus! {

pub struct CapabilityViewView {
    pub reference: CapabilityRefView,
    pub description: Seq<char>,
    pub permission: Seq<char>,
    pub enabled: bool,
    pub approval_override: Option<Seq<char>>,
    pub config: Seq<char>,
}

/// A capability as the service shows it: its descriptor with its configuration, if any;
/// `config` is a JSON document, held as its text.
#[derive(Debug)]
pub struct CapabilityView {
    pub reference: CapabilityRef,
    pub description: String,
    pub permission: String,
    pub enabled: bool,
    pub approval_override: Option<String>,
    pub config: String,
}

impl View for CapabilityView {
    type V = CapabilityViewView;

    open spec fn view(&self) -> CapabilityViewView {
        CapabilityViewView {
            reference: self.reference@,
            description: self.description@,
            permission: self.permission@,
            enabled: self.enabled,
            approval_override: opt_text_view(self.approval_override),
            config: self.config@,
        }
    }
}

/// The first configuration of `configs` for the capability `source`/`name`.
pub open spec fn find_config(
    configs: Seq<CapabilityConfigView>,
    source: CapabilitySource,
    name: Seq<char>,
) -> Option<CapabilityConfigView>
    decreases configs.len(),
{
    if configs.len() == 0 {
        None
    } else if configs[0].source == source && configs[0].name == name {
        Some(configs[0])
    } else {
        find_config(configs.drop_first(), source, name)
    }
}

/// How descriptor `d` shows with its configuration, if any: enabled, with no approval
/// override and an empty JSON object as configuration, when it has none.
pub open spec fn capability_view_of(
    d: CapabilityDescriptorView,
    config: Option<CapabilityConfigView>,
) -> CapabilityViewView {
    CapabilityViewView {
        reference: d.reference,
        description: d.description,
        permission: permission_name(d.permission),
        enabled: match config {
            Some(c) => c.enabled,
            None => true,
        },
        approval_override: match config {
            Some(c) => c.approval_override,
            None => None,
        },
        config: match config {
            Some(c) => c.config,
            None => "{}"@,
        },
    }
}

/// The view of each descriptor, in order, with the first configuration that matches it.
pub open spec fn capability_views_spec(
    descriptors: Seq<CapabilityDescriptorView>,
    configs: Seq<CapabilityConfigView>,
) -> Seq<CapabilityViewView> {
    descriptors.map_values(
        |d: CapabilityDescriptorView|
            capability_view_of(d, find_config(configs, d.reference.source, d.reference.name)),
    )
}

/// `c` is a configuration of the capability `source`/`name`.
pub open spec fn configures(c: CapabilityConfigView, source: CapabilitySource, name: Seq<char>) -> bool {
    c.source == source && c.name == name
}

proof fn lemma_find_config(configs: Seq<CapabilityConfigView>, source: CapabilitySource, name: Seq<char>)
    ensures
        match find_config(configs, source, name) {
            Some(c) => exists|j: int|
                0 <= j < configs.len() && #[trigger] configs[j] == c && configures(c, source, name)
                    && forall|i: int| 0 <= i < j ==> !configures(#[trigger] configs[i], source, name),
            None => forall|j: int| 0 <= j < configs.len() ==> !configures(#[trigger] configs[j], source, name),
        },
    decreases configs.len(),
{
    if configs.len() > 0 {
        let rest = configs.drop_first();
        lemma_find_config(rest, source, name);
        if !configures(configs[0], source, name) {
            match find_config(rest, source, name) {
                Some(c) => {
                    let j = choose|j: int|
                        0 <= j < rest.len() && #[trigger] rest[j] == c && configures(c, source, name)
                            && forall|i: int| 0 <= i < j ==> !configures(#[trigger] rest[i], source, name);
                    assert(configs[j + 1] == c);
                    assert forall|i: int| 0 <= i < j + 1 implies !configures(#[trigger] configs[i], source, name) by {
                        if i > 0 {
                            assert(configs[i] == rest[i - 1]);
                        }
                    }
                },
                None => {
                    assert forall|j: int| 0 <= j < configs.len() implies !configures(#[trigger] configs[j], source, name) by {
                        if j > 0 {
                            assert(configs[j] == rest[j - 1]);
                        }
                    }
                },
            }
        } else {
            assert(configs[0] == find_config(configs, source, name)->0);
        }
    }
}

/// A listed capability shows the configuration saved for it: when some configuration
/// has its source and name, the view carries the first such configuration's switch,
/// approval override and configuration text; when none has, it is enabled, with no
/// override and the empty object `{}`. Its reference and description are the
/// capability's own.
pub proof fn lemma_capability_view_config(
    descriptors: Seq<CapabilityDescriptorView>,
    configs: Seq<CapabilityConfigView>,
    i: int,
)
    requires
        0 <= i < descriptors.len(),
    ensures
        ({
            let d = descriptors[i];
            let v = capability_views_spec(descriptors, configs)[i];
            &&& capability_views_spec(descriptors, configs).len() == descriptors.len()
            &&& v.reference == d.reference
            &&& v.description == d.description
            &&& (exists|j: int| 0 <= j < configs.len() && configures(#[trigger] configs[j], d.reference.source, d.reference.name))
                ==> exists|j: int|
                0 <= j < configs.len() && configures(#[trigger] configs[j], d.reference.source, d.reference.name)
                    && (forall|k: int| 0 <= k < j ==> !configures(#[trigger] configs[k], d.reference.source, d.reference.name))
                    && v.config == configs[j].config && v.enabled == configs[j].enabled
                    && v.approval_override == configs[j].approval_override
            &&& (forall|j: int| 0 <= j < configs.len() ==> !configures(#[trigger] configs[j], d.reference.source, d.reference.name))
                ==> v.config == "{}"@ && v.enabled && v.approval_override is None
        }),
{
    let d = descriptors[i];
    lemma_find_config(configs, d.reference.source, d.reference.name);
    match find_config(configs, d.reference.source, d.reference.name) {
        Some(c) => {
            let j = choose|j: int|
                0 <= j < configs.len() && #[trigger] configs[j] == c && configures(c, d.reference.source, d.reference.name)
                    && forall|k: int| 0 <= k < j ==> !configures(#[trigger] configs[k], d.reference.source, d.reference.name);
            assert(configures(configs[j], d.reference.source, d.reference.name));
        },
        None => {},
    }
}

/// The first of `configs` for `source`/`name`, if any.
fn find_config_exec<'a>(configs: &'a Vec<CapabilityConfig>, source: CapabilitySource, name: &str) -> (r: Option<
    &'a CapabilityConfig,
>)
    ensures
        match r {
            Some(c) => find_config(configs@.map_values(|c: CapabilityConfig| c@), source, name@)
                == Some(c@),
            None => find_config(configs@.map_values(|c: CapabilityConfig| c@), source, name@) is None,
        },
{
    let ghost all = configs@.map_values(|c: CapabilityConfig| c@);
    let mut i: usize = 0;
    proof {
        assert(all.skip(0) =~= all);
    }
    while i < configs.len()
        invariant
            i <= configs@.len(),
            all == configs@.map_values(|c: CapabilityConfig| c@),
            find_config(all.skip(i as int), source, name@) == find_config(all, source, name@),
        decreases configs.len() - i,
    {
        let c = &configs[i];
        assert(all.skip(i as int)[0] == c@);
        if c.source == source && crate::text::text_eq(c.name.as_str(), name) {
            return Some(c);
        }
        assert(all.skip(i as int).drop_first() =~= all.skip(i + 1));
        i = i + 1;
    }
    None
}

/// Each descriptor, in order, with the first configuration of its source and name.
pub fn capability_views(descriptors: &Vec<CapabilityDescriptor>, configs: &Vec<CapabilityConfig>) -> (r: Vec<
    CapabilityView,
>)
    ensures
        r@.map_values(|v: CapabilityView| v@) == capability_views_spec(
            descriptors@.map_values(|d: CapabilityDescriptor| d@),
            configs@.map_values(|c: CapabilityConfig| c@),
        ),
{
    let ghost ds = descriptors@.map_values(|d: CapabilityDescriptor| d@);
    let ghost cs = configs@.map_values(|c: CapabilityConfig| c@);
    let mut views: Vec<CapabilityView> = Vec::new();
    let mut i: usize = 0;
    while i < descriptors.len()
        invariant
            i <= descriptors@.len(),
            ds == descriptors@.map_values(|d: CapabilityDescriptor| d@),
            cs == configs@.map_values(|c: CapabilityConfig| c@),
            views@.len() == i,
            forall|k: int| 0 <= k < i ==> (#[trigger] views@[k])@ == capability_view_of(
                ds[k],
                find_config(cs, ds[k].reference.source, ds[k].reference.name),
            ),
        decreases descriptors.len() - i,
    {
        let d = &descriptors[i];
        assert(ds[i as int] == d@);
        let found = find_config_exec(configs, d.reference.source, d.reference.name.as_str());
        let view = CapabilityView {
            reference: d.reference.clone(),
            description: d.description.clone(),
            permission: owned(d.permission.name()),
            enabled: match found {
                Some(c) => c.enabled,
                None => true,
            },
            approval_override: match found {
                Some(c) => clone_opt_text(&c.approval_override),
                None => None,
            },
            config: match found {
                Some(c) => c.config.clone(),
                None => owned("{}"),
            },
        };
        views.push(view);
        i = i + 1;
    }
    assert(views@.map_values(|v: CapabilityView| v@) =~= capability_views_spec(ds, cs));
    views
}

/// A planned session as the service keeps it: the plan and the events as stored.
#[derive(Debug)]
pub struct PersistedRuntimeSnapshot {
    pub snapshot: RuntimeSnapshot,
    pub stored_events: Vec<StoredRuntimeEvent>,
}

/// A runtime together with the store it keeps its sessions in.
pub struct RuntimeService {
    runtime: Runtime,
    store: MemoryStore,
}

impl RuntimeService {
    /// The runtime and the store are each well formed.
    pub closed spec fn wf(&self) -> bool {
        self.runtime.wf() && self.store.wf()
    }

    pub closed spec fn runtime_view(&self) -> Runtime {
        self.runtime
    }

    pub closed spec fn store_view(&self) -> MemoryStore {
        self.store
    }

    pub fn new(runtime: Runtime, store: MemoryStore) -> (r: Self)
        requires
            runtime.wf(),
            store.wf(),
        ensures
            r.wf(),
            r.runtime_view() == runtime,
            r.store_view() == store,
    {
        RuntimeService { runtime, store }
    }

    pub fn runtime(&self) -> (r: &Runtime)
        ensures
            *r == self.runtime_view(),
    {
        &self.runtime
    }

    pub fn store(&self) -> (r: &MemoryStore)
        ensures
            *r == self.store_view(),
    {
        &self.store
    }

    /// Plans a session for `objective`, saves it with its graph, and appends its events.
    pub fn create_session_plan(&mut self, objective: &str) -> (r: Result<PersistedRuntimeSnapshot, StoreError>)
        requires
            old(self).wf(),
            old(self).store_view().has_room(3),
        ensures
            final(self).wf(),
            final(self).runtime_view() == old(self).runtime_view(),
            match r {
                Ok(p) => {
                    let id = p.snapshot.session.id;
                    let old_store = old(self).store_view();
                    let new_store = final(self).store_view();
                    &&& is_plan_of(p.snapshot@, objective@)
                    &&& new_store.session_table() == old_store.session_table().insert(
                        id,
                        new_store.session_table()[id],
                    )
                    &&& new_store.session_table()[id].session == p.snapshot.session@
                    &&& Some(new_store.session_table()[id].graph) == p.snapshot@.graph
                    &&& new_store.session_table()[id].graph_version == next_graph_version(
                        old_store.session_table(),
                        id,
                    )
                    &&& p.stored_events@.len() == 3
                    &&& forall|k: int| 0 <= k < 3 ==> (#[trigger] p.stored_events@[k])@ == (
                    StoredRuntimeEventView {
                        seq: (old_store.log_of(id).len() + k + 1) as i64,
                        event: p.snapshot@.events[k],
                    })
                    &&& new_store.log_table() == old_store.log_table().insert(
                        id,
                        old_store.log_of(id) + p.stored_events@.map_values(
                            |e: StoredRuntimeEvent| e@,
                        ),
                    )
                },
                Err(_) => false,
            },
    {
        let snapshot = self.runtime.plan(objective);
        proof {
            self.store.lemma_room(snapshot.session.id, 3);
        }
        match self.store.save_session_with(&snapshot.session, snapshot.graph.as_ref()) {
            Ok(()) => {},
            Err(e) => {
                return Err(e);
            },
        }
        let stored_events = self.store.append_events(snapshot.session.id, snapshot.events.as_slice());
        Ok(PersistedRuntimeSnapshot { snapshot, stored_events })
    }

    /// Every stored session, newest first.
    pub fn list_sessions(&self) -> (r: Vec<SessionRecord>)
        requires
            self.wf(),
        ensures
            forall|i: int| 0 <= i < r@.len() ==> self.store_view().session_table().contains_key(
                (#[trigger] r@[i])@.session.id,
            ) && r@[i]@ == self.store_view().record(r@[i]@.session.id),
            forall|id: SessionId| self.store_view().session_table().contains_key(id) ==> exists|i: int|
                0 <= i < r@.len() && (#[trigger] r@[i])@.session.id == id,
            crate::store::listed_in_order(r@),
    {
        self.store.list_sessions()
    }

    /// The record of session `id`, if it is stored.
    pub fn load_session(&self, id: SessionId) -> (r: Option<SessionRecord>)
        requires
            self.wf(),
        ensures
            r is Some <==> self.store_view().session_table().contains_key(id),
            r matches Some(rec) ==> rec@ == self.store_view().record(id),
    {
        self.store.get_session(id)
    }

    /// The graph of session `id`, if it is stored.
    pub fn load_graph(&self, id: SessionId) -> (r: Option<TaskGraph>)
        requires
            self.wf(),
        ensures
            r is Some <==> self.store_view().session_table().contains_key(id),
            r matches Some(g) ==> g@ == self.store_view().session_table()[id].graph,
    {
        self.store.get_graph(id)
    }

    /// The events of session `id` numbered after `after_seq`, at most `limit` (at least
    /// room for one).
    pub fn list_events(&self, id: SessionId, after_seq: Option<i64>, limit: usize) -> (r: Vec<
        StoredRuntimeEvent,
    >)
        requires
            self.wf(),
        ensures
            r@.map_values(|e: StoredRuntimeEvent| e@) == events_after(
                self.store_view().log_of(id),
                match after_seq {
                    Some(a) => a,
                    None => 0,
                },
                if limit == 0 {
                    1
                } else {
                    limit as nat
                },
            ),
    {
        self.store.list_events(id, after_seq, limit)
    }

    /// Replays session `id` over its graph up to `until_seq`: the events read are the
    /// first `until_seq as usize` (or all) of its log.
    pub fn replay(&self, id: SessionId, until_seq: Option<i64>) -> (r: Vec<ReplayFrame>)
        requires
            self.wf(),
        ensures
            r@.map_values(|f: ReplayFrame| f@) == replay_frames(
                if self.store_view().session_table().contains_key(id) {
                    Some(self.store_view().session_table()[id].graph)
                } else {
                    None
                },
                events_after(
                    self.store_view().log_of(id),
                    0,
                    ({
                        let limit = match until_seq {
                            Some(u) => u,
                            None => i64::MAX,
                        } as usize;
                        if limit == 0 {
                            1
                        } else {
                            limit as nat
                        }
                    }),
                ),
                until_seq,
            ),
    {
        let limit = match until_seq {
            Some(u) => u,
            None => i64::MAX,
        } as usize;
        let events = self.store.list_events(id, None, limit);
        let graph = self.store.get_graph(id);
        fold_replay(graph.as_ref(), events, until_seq)
    }

    /// Every registered capability, in order of name, with its configuration.
    pub fn list_capabilities(&self) -> (r: Vec<CapabilityView>)
        requires
            self.wf(),
        ensures
            r@.map_values(|v: CapabilityView| v@) == capability_views_spec(
                self.runtime_view().capabilities.descriptors(),
                self.store_view().configs_view(),
            ),
    {
        let configs = self.store.list_capability_configs();
        capability_views(self.runtime.capabilities.list(), &configs)
    }

    /// Saves the configuration of capability `source`/`name`, stamped with the current time.
    pub fn update_capability_config(
        &mut self,
        source: CapabilitySource,
        name: String,
        enabled: bool,
        approval_override: Option<String>,
        config: String,
    ) -> (r: CapabilityConfig)
        requires
            old(self).wf(),
        ensures
            final(self).wf(),
            r.source == source,
            r.name@ == name@,
            r.enabled == enabled,
            opt_text_view(r.approval_override) == opt_text_view(approval_override),
            r.config@ == config@,
            final(self).runtime_view() == old(self).runtime_view(),
            final(self).store_view().configs_of(source) == crate::index::inserted_by(
                old(self).store_view().configs_of(source),
                r@,
                config_key(),
            ),
            forall|s: CapabilitySource| s != source ==> #[trigger] final(self).store_view().configs_of(s)
                == old(self).store_view().configs_of(s),
            final(self).store_view().session_table() == old(self).store_view().session_table(),
            final(self).store_view().log_table() == old(self).store_view().log_table(),
    {
        let c = CapabilityConfig {
            source,
            name,
            enabled,
            approval_override,
            config,
            updated_at: now_nanos(),
        };
        self.store.upsert_capability_config(c)
    }
}

} // verus!
