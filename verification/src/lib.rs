//! Verified core of the XHarness host: user-question contracts, the background
//! job registry, bounded process capture, the turn decision table and the
//! pure session/workspace policies.

pub mod text;
pub mod interaction;
pub mod utf8tail;
pub mod jobs;
pub mod process;
pub mod statecheck;
pub mod state;
pub mod models;
pub mod titles;
pub mod sessions;
pub mod workspaces;
pub mod subagents;
pub mod wire;
pub mod restore;
pub mod autotitle;
pub mod guard;
pub mod lifecycle;
pub mod selection;
pub mod queue;
pub mod prompt;
