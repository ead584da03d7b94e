//! Verified core of a remote terminal workspace: terminal stream tracking
//! and scrollback, relay capacity and routing state, and daemon-side
//! client, pairing and resume-token logic.

pub mod proto;
pub mod tracker;
pub mod ring;
pub mod relay_error;
pub mod caps;
pub mod daemon_error;
pub mod text;
pub mod client_db;
pub mod registry;
pub mod pairs;
pub mod connection;
pub mod relay_route;
pub mod dialer;
pub mod daemon_config;
pub mod resume;
pub mod pairing;
pub mod relay_config;
pub mod access;
pub mod session;
pub mod terminal;
