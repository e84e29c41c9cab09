//! crabot: a company-shaped multi-agent runtime, its domain model, capability registry,
//! slash commands, session store and replay, with contracts proved by Verus.
pub mod clock;
pub mod text;
pub mod domain;
pub mod plugins;
pub mod mcp;
pub mod index;
pub mod skills;
pub mod registry;
pub mod runtime;
pub mod replay;
pub mod store;
pub mod service;
pub mod api;
pub mod tooling;
pub mod naming;
pub mod agent;
pub mod carbot;
pub mod beans;
