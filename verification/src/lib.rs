//! An agent framework: the rules that a conversation, its tools and its frontends follow.
use vstd::prelude::*;

pub mod agent;
pub mod builder;
pub mod circuit_breaker;
pub mod cli;
pub mod combinator;
pub mod control;
pub mod deepseek;
pub mod extensions;
pub mod forks;
mod ids;
pub mod io;
pub mod json;
pub mod lines;
pub mod mcp;
pub mod mux;
pub mod mux_session;
pub mod names;
pub mod params;
pub mod providers;
pub mod routing;
pub mod schema;
pub mod session;
pub mod skill;
pub mod sqlite;
pub mod sse;
pub mod subagent;
pub mod telegram;
pub mod telegram_bridge;
pub mod text;
pub mod tools;
pub mod transcript;
pub mod types;
pub mod viewmodel;
pub mod yaml;

verus! {

} // verus!
