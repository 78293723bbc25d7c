//! Universal messaging for terminal agents: wire format, routing, registries
//! and the decisions behind every transport.

use vstd::prelude::*;

pub mod backend;
pub mod bootstrap;
pub mod bridge;
pub mod bytes;
pub mod cli;
pub mod command;
pub mod hub;
pub mod json;
pub mod log;
pub mod nats_hub;
pub mod number;
pub mod pieces;
pub mod protocol;
pub mod pty;
pub mod registry;
pub mod resolve;
pub mod telegram;
pub mod text;
pub mod tmux;
pub mod zellij;

verus! {

} // verus!
