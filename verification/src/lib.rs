//! Local multi-client IPC transport for a desktop host process: endpoint
//! resolution, length-prefixed framing, per-client queues, a client registry
//! and the server state machine that turns connection activity into one
//! ordered stream of events.

pub mod biometric;
pub mod connection;
pub mod encoding;
pub mod endpoint;
pub mod fido2;
pub mod frame;
pub mod ipc;
pub mod message;
pub mod registry;
pub mod server;
pub mod stream;
