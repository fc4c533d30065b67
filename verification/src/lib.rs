//! Verified core of the Codex desktop connector: wire formats, pagination,
//! readiness decisions and credential selection.
use vstd::prelude::*;

pub mod app_server;
pub mod baijimu_cli;
pub mod bytes;
pub mod catalog;
pub mod codec;
pub mod codex_binary;
pub mod credential;
pub mod desktop;
pub mod handshake;
pub mod history;
pub mod invoke;
pub mod ipc;
pub mod order;
pub mod projects;
pub mod request_schema;
pub mod server;
pub mod text;
pub mod websocket;
pub mod workspace_profile;

verus! {

} // verus!
