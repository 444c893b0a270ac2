//! Verified logic of git-ai.

pub mod authorship;
pub mod commands;
pub mod daemon;
pub mod error;
pub mod metrics;
pub mod selection;
pub mod text;
pub mod text_laws;
pub mod text_map;
