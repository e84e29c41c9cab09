//! Tool schemas, capability metadata, and the factory that builds values by name.
use vstd::prelude::*;

use std::sync::Arc;

use crate::text::{clone_texts, owned, text_eq, texts_view};

verus! {

/// A JSON schema, held as its text.
#[derive(Debug, Default)]
pub struct Schema {
    pub data: String,
}

impl Schema {
    pub fn new(data: String) -> (r: Self)
        ensures
            r.data@ == data@,
    {
        Schema { data }
    }
}

impl Clone for Schema {
    fn clone(&self) -> (r: Self)
        ensures
            r.data@ == self.data@,
    {
        Schema { data: self.data.clone() }
    }
}

/// A type that describes its own JSON schema.
pub trait SchemaParams {
    fn into_schema() -> Schema;
}

/// A value with no fields.
#[derive(Debug, Default)]
pub struct Empty {}

impl Clone for Empty {
    fn clone(&self) -> (r: Self) {
        Empty {  }
    }
}

impl Empty {
    pub fn new() -> (r: Self) {
        Empty {  }
    }
}

impl SchemaParams for Empty {
    /// The schema of no value: JSON `null`.
    fn into_schema() -> (r: Schema)
        ensures
            r.data@ == "null"@,
    {
        Schema { data: owned("null") }
    }
}

impl Empty {
    /// The schema of no value: JSON `null`.
    pub fn schema() -> (r: Schema)
        ensures
            r.data@ == "null"@,
    {
        Schema { data: owned("null") }
    }
}

/// Where a tool comes from.
#[derive(Debug, Default, Clone, Copy, PartialEq, Eq, Structural)]
pub enum CapabilitySourceKind {
    #[default]
    Builtin,
    Plugin,
    Mcp,
    Skill,
}

/// When a tool call waits for approval.
#[derive(Debug, Default, Clone, Copy, PartialEq, Eq, Structural)]
pub enum ApprovalRequirement {
    #[default]
    Never,
    OnSideEffect,
    Always,
}

impl ApprovalRequirement {
    /// Whether calls go through an approval gate: all but `Never` do.
    pub fn needs_gate(self) -> (r: bool)
        ensures
            r == (self != ApprovalRequirement::Never),
    {
        match self {
            ApprovalRequirement::OnSideEffect | ApprovalRequirement::Always => true,
            ApprovalRequirement::Never => false,
        }
    }
}

/// Where a tool comes from, when it needs approval, and its tags.
#[derive(Debug, PartialEq, Eq)]
pub struct CapabilityMetadata {
    pub source: CapabilitySourceKind,
    pub approval: ApprovalRequirement,
    pub tags: Vec<String>,
}

impl Default for CapabilityMetadata {
    /// A built-in tool that never waits for approval, without tags.
    fn default() -> (r: Self)
        ensures
            r.source == CapabilitySourceKind::Builtin,
            r.approval == ApprovalRequirement::Never,
            r.tags@.len() == 0,
    {
        CapabilityMetadata {
            source: CapabilitySourceKind::Builtin,
            approval: ApprovalRequirement::Never,
            tags: Vec::new(),
        }
    }
}

pub struct CapabilityMetadataView {
    pub source: CapabilitySourceKind,
    pub approval: ApprovalRequirement,
    pub tags: Seq<Seq<char>>,
}

impl View for CapabilityMetadata {
    type V = CapabilityMetadataView;

    open spec fn view(&self) -> CapabilityMetadataView {
        CapabilityMetadataView {
            source: self.source,
            approval: self.approval,
            tags: texts_view(self.tags@),
        }
    }
}

impl Clone for CapabilityMetadata {
    fn clone(&self) -> (r: Self)
        ensures
            r@ == self@,
    {
        CapabilityMetadata {
            source: self.source,
            approval: self.approval,
            tags: clone_texts(&self.tags),
        }
    }
}

/// What a tool is called, what it does, what it takes and gives, and its metadata.
#[derive(Debug)]
pub struct ToolSchema {
    pub name: String,
    pub desc: String,
    pub input: Schema,
    pub output: Schema,
    pub metadata: CapabilityMetadata,
}

pub struct ToolSchemaView {
    pub name: Seq<char>,
    pub desc: Seq<char>,
    pub input: Seq<char>,
    pub output: Seq<char>,
    pub metadata: CapabilityMetadataView,
}

impl View for ToolSchema {
    type V = ToolSchemaView;

    open spec fn view(&self) -> ToolSchemaView {
        ToolSchemaView {
            name: self.name@,
            desc: self.desc@,
            input: self.input.data@,
            output: self.output.data@,
            metadata: self.metadata@,
        }
    }
}

impl Clone for ToolSchema {
    fn clone(&self) -> (r: Self)
        ensures
            r@ == self@,
    {
        ToolSchema {
            name: self.name.clone(),
            desc: self.desc.clone(),
            input: self.input.clone(),
            output: self.output.clone(),
            metadata: self.metadata.clone(),
        }
    }
}

/// Builds a value of type `O` from an input of type `I`.
pub trait Constructor<I, O>: Send + Sync {
    /// `output` is what this constructor builds from `input`.
    spec fn builds(&self, input: I, output: O) -> bool;

    fn create(&self, input: I) -> (o: O)
        ensures
            self.builds(input, o),
    ;
}

/// Constructors of `O` from `I`, one per name.
#[verifier::reject_recursive_types(I)]
#[verifier::reject_recursive_types(O)]
pub struct TypedBeanFactory<I, O> {
    constructors: Vec<(String, Arc<dyn Constructor<I, O>>)>,
}

/// Calls `Arc::clone`, which gives another handle to the same value.
#[verifier::external_body]
fn share<T: ?Sized>(c: &Arc<T>) -> (r: Arc<T>)
    ensures
        r == *c,
{
    Arc::clone(c)
}

/// No name occurs twice in `entries`.
pub open spec fn names_distinct<C>(entries: Seq<(String, C)>) -> bool {
    forall|i: int, j: int| 0 <= i < j < entries.len() ==> (#[trigger] entries[i]).0@ != (
    #[trigger] entries[j]).0@
}

/// The names of `entries`, in order.
pub open spec fn entry_names<C>(entries: Seq<(String, C)>) -> Seq<Seq<char>> {
    entries.map_values(|e: (String, C)| e.0@)
}

impl<I: 'static, O: 'static> TypedBeanFactory<I, O> {
    /// The registered names, in order of first registration.
    pub closed spec fn names(&self) -> Seq<Seq<char>> {
        entry_names(self.constructors@)
    }

    /// The registered constructors, in the order of `names`.
    pub closed spec fn handles(&self) -> Seq<Arc<dyn Constructor<I, O>>> {
        self.constructors@.map_values(|e: (String, Arc<dyn Constructor<I, O>>)| e.1)
    }

    pub closed spec fn wf(&self) -> bool {
        names_distinct(self.constructors@)
    }

    /// No constructor.
    pub fn new() -> (r: Self)
        ensures
            r.wf(),
            r.names() == Seq::<Seq<char>>::empty(),
            r.handles() == Seq::<Arc<dyn Constructor<I, O>>>::empty(),
    {
        let r = TypedBeanFactory { constructors: Vec::new() };
        assert(r.names() =~= Seq::<Seq<char>>::empty());
        assert(r.handles() =~= Seq::<Arc<dyn Constructor<I, O>>>::empty());
        r
    }

    /// Where `name` is registered, if it is.
    fn position(&self, name: &str) -> (r: Option<usize>)
        requires
            self.wf(),
        ensures
            match r {
                Some(i) => i < self.names().len() && self.names()[i as int] == name@,
                None => !self.names().contains(name@),
            },
    {
        let mut i: usize = 0;
        while i < self.constructors.len()
            invariant
                i <= self.constructors@.len(),
                forall|k: int| 0 <= k < i ==> (#[trigger] self.constructors@[k]).0@ != name@,
            decreases self.constructors.len() - i,
        {
            if text_eq(self.constructors[i].0.as_str(), name) {
                return Some(i);
            }
            i = i + 1;
        }
        proof {
            if self.names().contains(name@) {
                let k = choose|k: int| 0 <= k < self.names().len() && self.names()[k] == name@;
                assert(self.constructors@[k].0@ == name@);
            }
        }
        None
    }

    /// Registers `ctor` under `name`, replacing the constructor of that name.
    pub fn register(&mut self, name: &str, ctor: Arc<dyn Constructor<I, O>>)
        requires
            old(self).wf(),
        ensures
            final(self).wf(),
            old(self).names().contains(name@) ==> final(self).names() == old(self).names(),
            !old(self).names().contains(name@) ==> final(self).names() == old(self).names().push(
                name@,
            ),
            final(self).handles().len() == final(self).names().len(),
            final(self).handles()[final(self).names().index_of(name@)] == ctor,
            forall|k: int|
                0 <= k < old(self).names().len() && old(self).names()[k] != name@
                    ==> #[trigger] final(self).handles()[k] == old(self).handles()[k],
    {
        let ghost old_entries = self.constructors@;
        let key = owned(name);
        let entry = (key, ctor);
        match self.position(name) {
            Some(i) => {
                self.constructors.set(i, entry);
                proof {
                    assert(self.constructors@ == old_entries.update(i as int, entry));
                    assert forall|k: int| 0 <= k < self.names().len() implies #[trigger] self.names()[k]
                        == entry_names(old_entries)[k] by {
                        if k != i {
                            assert(self.constructors@[k] == old_entries[k]);
                        }
                    }
                    assert(self.names() =~= entry_names(old_entries));
                    assert forall|a: int, b: int| 0 <= a < b < self.constructors@.len() implies (
                    #[trigger] self.constructors@[a]).0@ != (#[trigger] self.constructors@[b]).0@ by {
                        assert(self.constructors@[a].0@ == entry_names(old_entries)[a]);
                        assert(self.constructors@[b].0@ == entry_names(old_entries)[b]);
                    }
                    let on = entry_names(old_entries);
                    let j = on.index_of(name@);
                    assert(on[i as int] == name@);
                    assert(on.contains(name@));
                    assert(0 <= j < on.len() && on[j] == name@);
                    if j != i {
                        if j < i {
                            assert(old_entries[j].0@ != old_entries[i as int].0@);
                        } else {
                            assert(old_entries[i as int].0@ != old_entries[j].0@);
                        }
                    }
                    assert(self.handles()[i as int] == entry.1);
                }
            },
            None => {
                self.constructors.push(entry);
                proof {
                    let n = old_entries.len() as int;
                    assert(self.constructors@ == old_entries.push(entry));
                    assert forall|k: int| 0 <= k < self.names().len() implies #[trigger] self.names()[k]
                        == entry_names(old_entries).push(name@)[k] by {
                        if k < n {
                            assert(self.constructors@[k] == old_entries[k]);
                        }
                    }
                    assert(self.names() =~= entry_names(old_entries).push(name@));
                    assert forall|a: int, b: int| 0 <= a < b < self.constructors@.len() implies (
                    #[trigger] self.constructors@[a]).0@ != (#[trigger] self.constructors@[b]).0@ by {
                        assert(self.constructors@[a] == old_entries[a]);
                        if b == n {
                            assert(entry_names(old_entries)[a] == old_entries[a].0@);
                        } else {
                            assert(self.constructors@[b] == old_entries[b]);
                        }
                    }
                    assert(self.handles()[n] == entry.1);
                    assert(self.names()[n] == name@);
                    let j = self.names().index_of(name@);
                    assert(self.names().contains(name@));
                    if j != n {
                        assert(self.constructors@[j].0@ != self.constructors@[n].0@);
                    }
                }
            },
        }
    }

    /// Builds from `input` with the constructor registered under `name`, if there is one.
    pub fn create(&self, name: &str, input: I) -> (r: Option<O>)
        requires
            self.wf(),
        ensures
            r is Some <==> self.names().contains(name@),
            r matches Some(o) ==> self.handles()[self.names().index_of(name@)].builds(input, o),
    {
        match self.position(name) {
            Some(i) => {
                let o = self.constructors[i].1.create(input);
                proof {
                    let j = self.names().index_of(name@);
                    assert(self.names().contains(name@));
                    if j != i {
                        if j < i {
                            assert(self.constructors@[j].0@ != self.constructors@[i as int].0@);
                        } else {
                            assert(self.constructors@[i as int].0@ != self.constructors@[j].0@);
                        }
                    }
                }
                Some(o)
            },
            None => None,
        }
    }

    /// A copy of the registered constructors with their names, in order of first
    /// registration: each is a handle to the constructor registered under its name.
    pub fn constructors(&self) -> (r: Vec<(String, Arc<dyn Constructor<I, O>>)>)
        ensures
            entry_names(r@) == self.names(),
            r@.map_values(|e: (String, Arc<dyn Constructor<I, O>>)| e.1) == self.handles(),
    {
        let mut r: Vec<(String, Arc<dyn Constructor<I, O>>)> = Vec::new();
        let mut i: usize = 0;
        while i < self.constructors.len()
            invariant
                i <= self.constructors@.len(),
                r@.len() == i,
                forall|k: int| 0 <= k < i ==> (#[trigger] r@[k]).0@ == self.constructors@[k].0@
                    && r@[k].1 == self.constructors@[k].1,
            decreases self.constructors.len() - i,
        {
            let name = self.constructors[i].0.clone();
            let handle = share(&self.constructors[i].1);
            let entry = (name, handle);
            r.push(entry);
            i = i + 1;
        }
        assert(entry_names(r@) =~= self.names());
        assert(r@.map_values(|e: (String, Arc<dyn Constructor<I, O>>)| e.1) =~= self.handles());
        r
    }
}

} // verus!
