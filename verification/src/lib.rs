//! Sandboxes for AI agents on Firecracker microVMs: the verified core of the
//! host daemon, its command-line client and the agent inside each VM.

pub mod api;
pub mod cli;
pub mod config;
pub mod encoding;
pub mod error;
pub mod firecracker;
pub mod frame;
pub mod guest;
pub mod idmap;
pub mod output;
pub mod paths;
pub mod pool;
pub mod port_forward;
pub mod sandbox;
pub mod snapshot;
pub mod state;
pub mod text;
pub mod vm;
pub mod vsock;
pub mod ws;
