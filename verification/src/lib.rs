//! Protocol-translation bridge between a motion-control client and a local
//! HTTP control endpoint: connection screening, the shared-secret handshake,
//! per-connection sessions, command forwarding and live telemetry.

pub mod api;
pub mod auth;
pub mod bridge;
pub mod client;
pub mod config;
pub mod connection;
pub mod converter;
pub mod dashboard;
pub mod forwarder;
pub mod numbers;
pub mod registry;
pub mod stats;
pub mod text;
pub mod trusted;
