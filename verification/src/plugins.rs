//! Plugin manifests and the permission levels of what plugins can do.
use vstd::prelude::*;

use crate::domain::{CapabilityRef, CapabilityRefView, CapabilitySource};

verus! {

/// What a capability may touch.
#[derive(Debug, Clone, Copy, PartialEq, Eq, Structural)]
pub enum PermissionLevel {
    ReadOnly,
    WorkspaceWrite,
    Network,
    ExternalSideEffect,
}

pub open spec fn permission_name(p: PermissionLevel) -> Seq<char> {
    match p {
        PermissionLevel::ReadOnly => "ReadOnly"@,
        PermissionLevel::WorkspaceWrite => "WorkspaceWrite"@,
        PermissionLevel::Network => "Network"@,
        PermissionLevel::ExternalSideEffect => "ExternalSideEffect"@,
    }
}

impl PermissionLevel {
    /// Everything but read-only access waits for approval.
    pub fn requires_approval(self) -> (r: bool)
        ensures
            r == (self != PermissionLevel::ReadOnly),
    {
        match self {
            PermissionLevel::WorkspaceWrite | PermissionLevel::Network
            | PermissionLevel::ExternalSideEffect => true,
            PermissionLevel::ReadOnly => false,
        }
    }

    /// The variant's name, as `{:?}` prints it.
    pub fn name(&self) -> (r: &'static str)
        ensures
            r@ == permission_name(*self),
    {
        match self {
            PermissionLevel::ReadOnly => "ReadOnly",
            PermissionLevel::WorkspaceWrite => "WorkspaceWrite",
            PermissionLevel::Network => "Network",
            PermissionLevel::ExternalSideEffect => "ExternalSideEffect",
        }
    }
}

#[derive(Debug, Clone, Copy, PartialEq, Eq, Structural)]
pub enum PluginTransport {
    JsonRpcStdio,
}

#[derive(Debug, PartialEq, Eq)]
pub struct PluginEntrypoint {
    pub command: String,
    pub args: Vec<String>,
    pub transport: PluginTransport,
}

pub struct PluginCapabilityView {
    pub name: Seq<char>,
    pub description: Seq<char>,
    pub source: CapabilitySource,
    pub permission: PermissionLevel,
}

#[derive(Debug, PartialEq, Eq)]
pub struct PluginCapability {
    pub name: String,
    pub description: String,
    pub source: CapabilitySource,
    pub permission: PermissionLevel,
}

impl View for PluginCapability {
    type V = PluginCapabilityView;

    open spec fn view(&self) -> PluginCapabilityView {
        PluginCapabilityView {
            name: self.name@,
            description: self.description@,
            source: self.source,
            permission: self.permission,
        }
    }
}

#[derive(Debug, PartialEq, Eq)]
pub struct PluginManifest {
    pub name: String,
    pub version: String,
    pub description: String,
    pub entrypoint: PluginEntrypoint,
    pub capabilities: Vec<PluginCapability>,
}

impl PluginManifest {
    pub open spec fn capabilities_view(&self) -> Seq<PluginCapabilityView> {
        self.capabilities@.map_values(|c: PluginCapability| c@)
    }

    /// One reference per declared capability, in order, with its source and name.
    pub fn capability_refs(&self) -> (r: Vec<CapabilityRef>)
        ensures
            r@.len() == self.capabilities@.len(),
            forall|i: int| 0 <= i < r@.len() ==> (#[trigger] r@[i])@ == (CapabilityRefView {
                source: self.capabilities@[i].source,
                name: self.capabilities@[i].name@,
            }),
    {
        let mut r: Vec<CapabilityRef> = Vec::new();
        let mut i: usize = 0;
        while i < self.capabilities.len()
            invariant
                i <= self.capabilities@.len(),
                r@.len() == i,
                forall|k: int| 0 <= k < i ==> (#[trigger] r@[k])@ == (CapabilityRefView {
                    source: self.capabilities@[k].source,
                    name: self.capabilities@[k].name@,
                }),
            decreases self.capabilities.len() - i,
        {
            let c = &self.capabilities[i];
            r.push(CapabilityRef::new(c.source, c.name.as_str()));
            i = i + 1;
        }
        r
    }
}

#[derive(Debug, Clone, Copy, PartialEq, Eq, Structural)]
pub enum ApprovalDecision {
    Allow,
    Ask,
    Deny,
}

#[derive(Debug, PartialEq, Eq)]
pub struct ApprovalPolicy {
    pub default: ApprovalDecision,
    pub prompt: Option<String>,
}

} // verus!
