//! The distance table behind the metric, re-exported from the edit-distance
//! module for callers that want the whole table rather than the corner.

pub use crate::edit_distance::{get_edit_distance_table, Element};
