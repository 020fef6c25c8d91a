//! Vela core logic: the IPC protocol, capture routing and metrics, workspace
//! path and index rules, the permission broker, agent discovery and session
//! event normalization.

pub mod protocol;
pub mod text;
pub mod decimal;
pub mod permission;
pub mod capture;
pub mod workspace;
pub mod order;
pub mod acp;
pub mod discovery;
pub mod json;
pub mod session;
pub mod ipc;
mod clock;
pub mod harness;
