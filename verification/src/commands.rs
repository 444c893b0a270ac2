//! Commands.

pub mod daemon_sync;
pub mod daemon_sync_laws;
