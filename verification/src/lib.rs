//! Reading the values that the dweb command line accepts: a history entry
//! RANGE such as `3`, `3:` or `2:7`, and counts that must be greater than zero.

pub mod decimal;
pub mod entries_range;
pub mod files_args;
pub mod pattern;
pub mod positive;

pub use decimal::{IntErrorKind, parse_unsigned};
pub use entries_range::{
    ENTRIES_RANGE_PATTERN, EntriesRange, EntriesRangeError, entries_range_from_captures,
    str_to_entries_range,
};
pub use files_args::FilesArgs;
pub use positive::greater_than_0;
