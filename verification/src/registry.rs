//! The capability registry: what the runtime can call, keyed by capability name.
use vstd::prelude::*;

use crate::domain::{CapabilityRef, CapabilityRefView, CapabilitySource};
use crate::index::{inserted_by, lemma_inserted_map, lemma_lookup_map, lookup_by, name_key, NameIndex, Named};
use crate::mcp::{mcp_tool_name, qualified_tool_name, McpServerDefinition, McpToolDefinition};
use crate::plugins::{PermissionLevel, PluginCapability, PluginManifest};
use crate::skills::inserted_all;
use crate::text::owned;

verus! {

pub struct CapabilityDescriptorView {
    pub reference: CapabilityRefView,
    pub description: Seq<char>,
    pub permission: PermissionLevel,
}

#[derive(Debug, PartialEq, Eq)]
pub struct CapabilityDescriptor {
    pub reference: CapabilityRef,
    pub description: String,
    pub permission: PermissionLevel,
}

impl View for CapabilityDescriptor {
    type V = CapabilityDescriptorView;

    open spec fn view(&self) -> CapabilityDescriptorView {
        CapabilityDescriptorView {
            reference: self.reference@,
            description: self.description@,
            permission: self.permission,
        }
    }
}

impl Named for CapabilityDescriptor {
    open spec fn name_view(&self) -> Seq<char> {
        self.reference.name@
    }

    fn name_str(&self) -> (r: &str) {
        self.reference.name.as_str()
    }
}

impl Clone for CapabilityDescriptor {
    fn clone(&self) -> (r: Self)
        ensures
            r@ == self@,
    {
        CapabilityDescriptor {
            reference: self.reference.clone(),
            description: self.description.clone(),
            permission: self.permission,
        }
    }
}

/// The descriptor of a built-in, read-only capability.
pub open spec fn builtin_descriptor(name: Seq<char>, description: Seq<char>) -> CapabilityDescriptorView {
    CapabilityDescriptorView {
        reference: CapabilityRefView { source: CapabilitySource::Builtin, name },
        description,
        permission: PermissionLevel::ReadOnly,
    }
}

impl CapabilityDescriptor {
    /// A built-in, read-only capability.
    pub fn builtin(name: &str, description: &str) -> (r: Self)
        ensures
            r@ == builtin_descriptor(name@, description@),
    {
        CapabilityDescriptor {
            reference: CapabilityRef::new(CapabilitySource::Builtin, name),
            description: owned(description),
            permission: PermissionLevel::ReadOnly,
        }
    }
}

pub open spec fn descriptor_key() -> spec_fn(CapabilityDescriptorView) -> Seq<char> {
    |d: CapabilityDescriptorView| d.reference.name
}

/// The descriptors a plugin's capabilities become.
pub open spec fn plugin_descriptors(caps: Seq<crate::plugins::PluginCapabilityView>) -> Seq<CapabilityDescriptorView> {
    caps.map_values(
        |c: crate::plugins::PluginCapabilityView|
            CapabilityDescriptorView {
                reference: CapabilityRefView { source: c.source, name: c.name },
                description: c.description,
                permission: c.permission,
            },
    )
}

/// The descriptors the tools of MCP server `server` become: read-only, named `server:tool`.
pub open spec fn mcp_descriptors(
    server: Seq<char>,
    tools: Seq<crate::mcp::McpToolDefinitionView>,
) -> Seq<CapabilityDescriptorView> {
    tools.map_values(
        |t: crate::mcp::McpToolDefinitionView|
            CapabilityDescriptorView {
                reference: CapabilityRefView {
                    source: CapabilitySource::Mcp,
                    name: mcp_tool_name(server, t.name),
                },
                description: t.description,
                permission: PermissionLevel::ReadOnly,
            },
    )
}

/// Capabilities, one per name, in ascending order of name.
pub struct CapabilityRegistry {
    capabilities: NameIndex<CapabilityDescriptor>,
}

impl CapabilityRegistry {
    /// The descriptors ascend strictly by name.
    pub closed spec fn wf(&self) -> bool {
        self.capabilities.wf()
    }

    /// The descriptors, in ascending order of name.
    pub closed spec fn descriptors(&self) -> Seq<CapabilityDescriptorView> {
        self.capabilities@.map_values(|d: CapabilityDescriptor| d@)
    }

    pub fn new() -> (r: Self)
        ensures
            r.wf(),
            r.descriptors() == Seq::<CapabilityDescriptorView>::empty(),
    {
        let r = CapabilityRegistry { capabilities: NameIndex::new() };
        assert(r.descriptors() =~= Seq::<CapabilityDescriptorView>::empty());
        r
    }

    /// Registers a capability under its name, replacing one of the same name.
    pub fn register(&mut self, descriptor: CapabilityDescriptor)
        requires
            old(self).wf(),
        ensures
            final(self).wf(),
            final(self).descriptors() == inserted_by(
                old(self).descriptors(),
                descriptor@,
                descriptor_key(),
            ),
    {
        let ghost old_items = self.capabilities@;
        let ghost d = descriptor;
        self.capabilities.insert(descriptor);
        proof {
            lemma_inserted_map(
                old_items,
                d,
                name_key::<CapabilityDescriptor>(),
                |x: CapabilityDescriptor| x@,
                descriptor_key(),
            );
        }
    }

    /// A registered capability is the one found: once `descriptor` is put among the
    /// descriptors, looking its name up gives it, and other names give what they gave.
    pub proof fn lemma_registered_found(&self, descriptor: CapabilityDescriptorView, name: Seq<char>)
        requires
            self.wf(),
        ensures
            lookup_by(
                inserted_by(self.descriptors(), descriptor, descriptor_key()),
                descriptor.reference.name,
                descriptor_key(),
            ) == Some(descriptor),
            name != descriptor.reference.name ==> lookup_by(
                inserted_by(self.descriptors(), descriptor, descriptor_key()),
                name,
                descriptor_key(),
            ) == lookup_by(self.descriptors(), name, descriptor_key()),
    {
        let views = self.descriptors();
        let key = descriptor_key();
        assert forall|a: int, b: int| 0 <= a < b < views.len() implies crate::text::text_lt(
            #[trigger] key(views[a]),
            #[trigger] key(views[b]),
        ) by {
            let nk = name_key::<CapabilityDescriptor>();
            assert(crate::text::text_lt(nk(self.capabilities@[a]), nk(self.capabilities@[b])));
        }
        crate::index::lemma_lookup_inserted(views, descriptor, key, name);
    }

    /// A plugin's capability is found as declared: once the plugin's capabilities are put
    /// among the descriptors, the name of a capability that no later capability of the
    /// plugin shares finds a descriptor with that capability's source, name, description
    /// and permission.
    pub proof fn lemma_plugin_capability_found(
        &self,
        caps: Seq<crate::plugins::PluginCapabilityView>,
        i: int,
    )
        requires
            self.wf(),
            0 <= i < caps.len(),
            forall|j: int| i < j < caps.len() ==> (#[trigger] caps[j]).name != caps[i].name,
        ensures
            lookup_by(
                inserted_all(self.descriptors(), plugin_descriptors(caps), descriptor_key()),
                caps[i].name,
                descriptor_key(),
            ) matches Some(d) && d.reference.source == caps[i].source && d.reference.name
                == caps[i].name && d.description == caps[i].description && d.permission
                == caps[i].permission,
    {
        let views = self.descriptors();
        let key = descriptor_key();
        let pd = plugin_descriptors(caps);
        assert forall|a: int, b: int| 0 <= a < b < views.len() implies crate::text::text_lt(
            #[trigger] key(views[a]),
            #[trigger] key(views[b]),
        ) by {
            let nk = name_key::<CapabilityDescriptor>();
            assert(crate::text::text_lt(nk(self.capabilities@[a]), nk(self.capabilities@[b])));
        }
        assert forall|j: int| i < j < pd.len() implies key(#[trigger] pd[j]) != key(pd[i]) by {
            assert(caps[j].name != caps[i].name);
        }
        crate::skills::lemma_last_named_at(pd, key, i);
        crate::skills::lemma_lookup_inserted_all(views, pd, key, caps[i].name);
    }

    /// Registers each capability of a plugin, in order, with its source, name and permission.
    pub fn register_plugin(&mut self, manifest: &PluginManifest)
        requires
            old(self).wf(),
        ensures
            final(self).wf(),
            final(self).descriptors() == inserted_all(
                old(self).descriptors(),
                plugin_descriptors(manifest.capabilities_view()),
                descriptor_key(),
            ),
            forall|i: int|
                0 <= i < manifest.capabilities_view().len() && (forall|j: int|
                    i < j < manifest.capabilities_view().len() ==> (
                    #[trigger] manifest.capabilities_view()[j]).name
                        != manifest.capabilities_view()[i].name) ==> (lookup_by(
                    final(self).descriptors(),
                    #[trigger] manifest.capabilities_view()[i].name,
                    descriptor_key(),
                ) matches Some(d) && d.permission == manifest.capabilities_view()[i].permission
                    && d.reference.source == manifest.capabilities_view()[i].source
                    && d.description == manifest.capabilities_view()[i].description),
    {
        let ghost start = self.descriptors();
        let ghost before = *self;
        let ghost all = plugin_descriptors(manifest.capabilities_view());
        let mut i: usize = 0;
        while i < manifest.capabilities.len()
            invariant
                self.wf(),
                i <= manifest.capabilities@.len(),
                all == plugin_descriptors(manifest.capabilities_view()),
                self.descriptors() == inserted_all(start, all.take(i as int), descriptor_key()),
            decreases manifest.capabilities.len() - i,
        {
            let c: &PluginCapability = &manifest.capabilities[i];
            let d = CapabilityDescriptor {
                reference: CapabilityRef::new(c.source, c.name.as_str()),
                description: c.description.clone(),
                permission: c.permission,
            };
            assert(d@ == all[i as int]);
            self.register(d);
            assert(all.take(i + 1).drop_last() =~= all.take(i as int));
            i = i + 1;
        }
        assert(all.take(manifest.capabilities@.len() as int) =~= all);
        proof {
            let caps = manifest.capabilities_view();
            assert forall|i: int|
                0 <= i < caps.len() && (forall|j: int|
                    i < j < caps.len() ==> (#[trigger] caps[j]).name != caps[i].name) implies (lookup_by(
                self.descriptors(),
                #[trigger] caps[i].name,
                descriptor_key(),
            ) matches Some(d) && d.permission == caps[i].permission && d.reference.source
                == caps[i].source && d.description == caps[i].description) by {
                before.lemma_plugin_capability_found(caps, i);
            }
        }
    }

    /// Registers each tool of an MCP server, in order, read-only and named `server:tool`.
    pub fn register_mcp_server(&mut self, server: &McpServerDefinition)
        requires
            old(self).wf(),
        ensures
            final(self).wf(),
            final(self).descriptors() == inserted_all(
                old(self).descriptors(),
                mcp_descriptors(server.name@, server.tools@.map_values(|t: McpToolDefinition| t@)),
                descriptor_key(),
            ),
    {
        let ghost start = self.descriptors();
        let ghost all = mcp_descriptors(
            server.name@,
            server.tools@.map_values(|t: McpToolDefinition| t@),
        );
        let mut i: usize = 0;
        while i < server.tools.len()
            invariant
                self.wf(),
                i <= server.tools@.len(),
                all == mcp_descriptors(
                    server.name@,
                    server.tools@.map_values(|t: McpToolDefinition| t@),
                ),
                self.descriptors() == inserted_all(start, all.take(i as int), descriptor_key()),
            decreases server.tools.len() - i,
        {
            let t: &McpToolDefinition = &server.tools[i];
            let d = CapabilityDescriptor {
                reference: CapabilityRef {
                    source: CapabilitySource::Mcp,
                    name: qualified_tool_name(server.name.as_str(), t.name.as_str()),
                },
                description: t.description.clone(),
                permission: PermissionLevel::ReadOnly,
            };
            assert(d@ == all[i as int]);
            self.register(d);
            assert(all.take(i + 1).drop_last() =~= all.take(i as int));
            i = i + 1;
        }
        assert(all.take(server.tools@.len() as int) =~= all);
    }

    /// The descriptors, in ascending order of name.
    pub fn list(&self) -> (r: &Vec<CapabilityDescriptor>)
        ensures
            r@.map_values(|d: CapabilityDescriptor| d@) == self.descriptors(),
    {
        self.capabilities.values()
    }

    /// The descriptor named `name`, if there is one.
    pub fn get(&self, name: &str) -> (r: Option<&CapabilityDescriptor>)
        requires
            self.wf(),
        ensures
            r is Some <==> lookup_by(self.descriptors(), name@, descriptor_key()) is Some,
            r matches Some(d) ==> lookup_by(self.descriptors(), name@, descriptor_key()) == Some(
                d@,
            ),
    {
        proof {
            lemma_lookup_map(
                self.capabilities@,
                name@,
                name_key::<CapabilityDescriptor>(),
                |x: CapabilityDescriptor| x@,
                descriptor_key(),
            );
        }
        self.capabilities.get(name)
    }
}

} // verus!
