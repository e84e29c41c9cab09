//! Model Context Protocol servers and the tools they offer.
use vstd::prelude::*;

use crate::domain::{CapabilityRef, CapabilityRefView, CapabilitySource};

verus! {

pub struct McpToolDefinitionView {
    pub name: Seq<char>,
    pub description: Seq<char>,
    pub input_schema: Seq<char>,
}

/// A tool of an MCP server; its input schema is a JSON document, held as its text.
#[derive(Debug, PartialEq, Eq)]
pub struct McpToolDefinition {
    pub name: String,
    pub description: String,
    pub input_schema: String,
}

impl View for McpToolDefinition {
    type V = McpToolDefinitionView;

    open spec fn view(&self) -> McpToolDefinitionView {
        McpToolDefinitionView {
            name: self.name@,
            description: self.description@,
            input_schema: self.input_schema@,
        }
    }
}

#[derive(Debug, PartialEq, Eq)]
pub struct McpServerDefinition {
    pub name: String,
    pub command: String,
    pub args: Vec<String>,
    pub env: Vec<(String, String)>,
    pub tools: Vec<McpToolDefinition>,
}

/// The capability name of tool `tool` on server `server`: `server:tool`.
pub open spec fn mcp_tool_name(server: Seq<char>, tool: Seq<char>) -> Seq<char> {
    server + ":"@ + tool
}

/// `server:tool`.
pub fn qualified_tool_name(server: &str, tool: &str) -> (r: String)
    ensures
        r@ == mcp_tool_name(server@, tool@),
{
    let mut r = String::from_str(server);
    r.append(":");
    r.append(tool);
    r
}

impl McpServerDefinition {
    /// One MCP reference per tool, in order, named `server:tool`.
    pub fn capability_refs(&self) -> (r: Vec<CapabilityRef>)
        ensures
            r@.len() == self.tools@.len(),
            forall|i: int| 0 <= i < r@.len() ==> (#[trigger] r@[i])@ == (CapabilityRefView {
                source: CapabilitySource::Mcp,
                name: mcp_tool_name(self.name@, self.tools@[i].name@),
            }),
    {
        let mut r: Vec<CapabilityRef> = Vec::new();
        let mut i: usize = 0;
        while i < self.tools.len()
            invariant
                i <= self.tools@.len(),
                r@.len() == i,
                forall|k: int| 0 <= k < i ==> (#[trigger] r@[k])@ == (CapabilityRefView {
                    source: CapabilitySource::Mcp,
                    name: mcp_tool_name(self.name@, self.tools@[k].name@),
                }),
            decreases self.tools.len() - i,
        {
            let name = qualified_tool_name(self.name.as_str(), self.tools[i].name.as_str());
            r.push(CapabilityRef { source: CapabilitySource::Mcp, name });
            i = i + 1;
        }
        r
    }
}

/// A call of tool `tool` on server `server`; the input is a JSON document, held as its text.
#[derive(Debug, PartialEq, Eq)]
pub struct McpToolCall {
    pub server: String,
    pub tool: String,
    pub input: String,
}

} // verus!
