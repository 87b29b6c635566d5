//! Verified core logic of the agent session runner.

pub mod text;
pub mod timeout;
pub mod latent;
pub mod skill_context;
pub mod streamline;
pub mod steer_gate;
pub mod tool_guard;
pub mod idmap;
pub mod bg;
pub mod strmap;
pub mod question;
pub mod image_data;
pub mod sidecar;
pub mod web;
pub mod serp;
pub mod research;
pub mod read;
pub mod bash;
pub mod execute;
pub mod glob;
pub mod chrome;
pub mod dedup;
pub mod ls;
pub mod edit;
pub mod plan;
pub mod computer_use;
pub mod search;
pub mod grep;
pub mod subagent;
pub mod drain;
pub mod skill_resolve;
pub mod turn;
pub mod event;
pub mod llm_stream;
pub mod serp_parse;
pub mod run_entry;
pub mod inputs;
pub mod cli_tool;
