//! A line-counting library: walks directory trees, counts newline bytes per
//! file, and aggregates the counts into a sortable report with totals and a
//! per-extension breakdown.

pub mod aggregate;
pub mod args;
pub mod counter;
pub mod paths;
pub mod types;
pub mod walker;

pub use aggregate::take_top;
pub use counter::CountError;
pub use counter::count_lines;
pub use counter::count_newlines;
pub use walker::count;

pub use types::CountConfig;
pub use types::CountResult;
pub use types::ExtensionSummary;
pub use types::FileCount;
pub use types::SortOrder;
