//! Who wrote which lines.

pub mod attestation_laws;
pub mod authorship_log;
pub mod conflict_resolution;
pub mod line_coverage;
pub mod line_mapping;
pub mod line_range;
pub mod log_merge;
pub mod metadata_references;
pub mod place_laws;
pub mod record_laws;
pub mod repetition_laws;
