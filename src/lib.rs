//! Packet distribution fabric of an APRS-IS relay: packet utilities, the
//! subscription filter engine, duplicate suppression, the client and peer
//! registry, and the decision logic of client, uplink and peer sessions.

pub mod text;
pub mod packet;
pub mod decimal;
pub mod filter;
pub mod dedup;
pub mod client;
pub mod hub;
pub mod status;
pub mod config;
pub mod relay;
pub mod session;
pub mod web;
