//! The background service.

pub mod report_laws;
pub mod rewrite_event;
pub mod rewrite_laws;
pub mod rewrite_metrics;
