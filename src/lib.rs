//! A routing layer over tool-provider connections: it turns each provider's
//! `tools/list` answer into registry entries, resolves a tool name to exactly
//! one (provider, tool) pair, and decides where each call is dispatched.
pub mod catalog;
pub mod json;
pub mod manager;
pub mod registry;
