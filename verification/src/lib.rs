use vstd::prelude::*;

pub mod agents;
pub mod backoff;
pub mod command;
pub mod config;
pub mod discovery;
pub mod exit;
pub mod filechan;
pub mod files;
pub mod keys;
pub mod reconnect;
pub mod runner;
pub mod session;
pub mod ssh_config;
pub mod text;
pub mod transport;
pub mod views;

verus! {

pub const PROJECT_NAME: &'static str = "agent-session-client";

} // verus!
