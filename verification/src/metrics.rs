//! Usage metrics: events, and their storage for local history and offline buffering.

pub mod db;
pub mod db_laws;
pub mod failure_laws;
pub mod outcome_laws;
pub mod requests;
pub mod row_laws;
pub mod sql;
pub mod statement_laws;
pub mod tables;
pub mod types;
