//! The decisions of a terminal coding agent: its configuration, its sessions, what it asks of
//! providers and reads in their answers, which tools it runs and what it remembers.
use vstd::prelude::*;

pub mod agent;
pub mod agent_events;
pub mod anthropic;
pub mod cli;
pub mod client;
pub mod compaction;
pub mod config;
pub mod conversation;
pub mod course;
pub mod events;
pub mod history;
pub mod http;
pub mod json;
pub mod keeping;
pub mod keyed;
pub mod limits;
pub mod mock;
pub mod openai;
pub mod openai_compat;
pub mod plan;
pub mod prompt;
pub mod provider;
pub mod raw;
pub mod response;
pub mod restart;
pub mod sending;
pub mod session;
pub mod sse;
pub mod stability;
pub mod stored;
pub mod text;
pub mod tool_result;
pub mod tools;
pub mod workspace;

verus! {

} // verus!
