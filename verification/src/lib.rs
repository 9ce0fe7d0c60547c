//! Rendezvous server extensions: UDP and IPv6 hole punching, WebSocket registration and the
//! heartbeat fallback, with every decision proved against its contract.

pub mod addr;
pub mod fallback;
pub mod heartbeat;
pub mod keys;
pub mod payload;
pub mod pending;
pub mod punch;
pub mod rate;
pub mod stats;
pub mod switches;
pub mod table;
pub mod text;
pub mod time;
pub mod ws;
