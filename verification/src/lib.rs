//! Tunnel lifecycle management: a registry of port-to-public-URL tunnels
//! backed by supervised provider subprocesses, with desired-state
//! reconciliation across restarts and crashes.
//!
//! The registry, the desired-state records, the provider-output URL
//! detection and the binary-locator candidate order are verified here;
//! process spawning, file persistence and the clock live with the caller.

pub mod commands;
pub mod detect;
pub mod locate;
pub mod manager;
pub mod port;
pub mod reconcile;
pub mod sim;
pub mod store;
pub mod tunnel;
