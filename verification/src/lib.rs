//! Verified core of a peer-to-peer VPN desktop application.

pub mod commands;
pub mod discovery;
pub mod engine;
pub mod error;
pub mod iplit;
pub mod net;
pub mod openvpn;
pub mod public;
pub mod sources;
pub mod state;
pub mod text;
pub mod transport;
