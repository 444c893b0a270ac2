//! Metric events and the records that queries return.

use crate::text::{decimal, decimal_digits};
use crate::text_map::TextMap;
use vstd::prelude::*;

verus! {

/// The position of the git-ai version among the attributes of an event.
pub const ATTR_GIT_AI_VERSION: usize = 0;

/// The position of the repository URL among the attributes of an event.
pub const ATTR_REPO_URL: usize = 1;

/// A value in a sparse array.
#[derive(Debug)]
pub enum SparseValue {
    Null,
    Text(String),
    /// Any other JSON value, held as its JSON text.
    Json(String),
}

/// An event, with its values and attributes keyed by position in decimal digits.
#[derive(Debug)]
pub struct MetricEvent {
    /// When the event happened, in Unix seconds.
    pub timestamp: u32,
    pub event_id: u16,
    pub values: TextMap<SparseValue>,
    pub attrs: TextMap<SparseValue>,
}

/// A pending event as it is stored.
#[derive(Debug)]
pub struct MetricRecord {
    pub id: i64,
    pub event_json: String,
}

/// An event of the local history.
#[derive(Debug)]
pub struct MetricHistoryRecord {
    pub event_id: u16,
    pub ts: u32,
    pub repo_url: Option<String>,
    pub event: MetricEvent,
}

/// The text at a position of a sparse array: none where the position is absent or holds something
/// else, an inner none where it holds null.
pub open spec fn sparse_string(
    array: Map<Seq<char>, SparseValue>,
    position: nat,
) -> Option<Option<String>> {
    if array.contains_key(decimal_digits(position)) {
        match array[decimal_digits(position)] {
            SparseValue::Null => Some(None),
            SparseValue::Text(text) => Some(Some(text)),
            SparseValue::Json(_) => None,
        }
    } else {
        None
    }
}

/// Reads the text at a position of a sparse array.
pub fn sparse_get_string(array: &TextMap<SparseValue>, position: usize) -> (text: Option<
    Option<String>,
>)
    ensures
        text == sparse_string(array@, position as nat),
{
    match array.get(&decimal(position as u64)) {
        Some(SparseValue::Null) => Some(None),
        Some(SparseValue::Text(text)) => Some(Some(text.clone())),
        _ => None,
    }
}

} // verus!
