//! Status conditions of a Kubernetes-style JSON document, laid out as a
//! fixed-width table: type, status, reason and the age of the last transition.
use vstd::prelude::*;

pub mod conditions;
pub mod document;
pub mod json;
pub mod order;
pub mod sort;
pub mod table;
pub mod text;
pub mod time;

pub use conditions::{
    condition_row_from_object, format_condition_table, skipped_entry_count, str_field,
};
pub use document::{format_document, list_entries, title_of};
pub use json::{json_kind, walk_path, Json, PathError};
pub use order::{cmp_last_transition_time, sort_mode_from_flags, ConditionRow, SortMode};
pub use sort::sort_rows;
pub use table::{cell_width, column_widths, format_padded_line, table_header_strings};
pub use time::{
    describe_age, elapsed_seconds, format_duration, parse_last_transition_time, relative_time_at,
    Timestamp,
};

verus! {
}
