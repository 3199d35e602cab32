//! Presence, messaging and task routing for cooperating agents.
pub mod client;
pub mod clock;
pub mod daemon;
pub mod ids;
pub mod laws;
pub mod model;
pub mod protocol;
pub mod query;
pub mod ratelimit;
pub mod repos;
pub mod server;
pub mod setup;
pub mod tables;
pub mod text;
pub mod tui;
