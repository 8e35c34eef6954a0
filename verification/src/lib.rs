//! The decisions behind Tethys, a desktop app that runs coding agents in git
//! worktrees: what to run, what to keep, what to refuse and what to say.
//!
//! Nothing here touches the disk, the network, the clock or another process.
//! The application performs those steps and hands the outcomes back.

pub mod agent;
pub mod agent_bin;
pub mod agent_cmd;
pub mod artifacts;
pub mod boot;
pub mod child_env;
pub mod claude_local;
pub mod claude_settings;
pub mod codex_trust;
pub mod commands;
pub mod dev_orchestrator;
pub mod dev_servers;
pub mod error;
pub mod frame;
pub mod git;
pub mod github;
pub mod handoff;
pub mod hash;
pub mod hook;
pub mod ids;
pub mod job;
pub mod json;
pub mod list;
pub mod managed_docs;
pub mod mcp;
pub mod mcp_tools;
pub mod mcp_wire;
pub mod memory_poller;
pub mod memwatch;
pub mod paths;
pub mod pending_permissions;
pub mod pr_view;
pub mod probe;
pub mod provision;
pub mod provision_queue;
pub mod pty;
pub mod purge;
pub mod registry;
pub mod scripts;
pub mod scrollback;
pub mod sessions;
pub mod shell;
pub mod state;
pub mod text;
