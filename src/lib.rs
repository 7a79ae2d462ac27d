//! Parsing and aggregation of LCOV coverage records.
//!
//! `record` reads single lines, `lcov_file` folds lines into a document of file
//! sections, `summary` totals a document and compares two totals, and `file_diff`
//! compares two documents file by file.

pub mod file_diff;
pub mod lcov_file;
pub mod record;
pub mod summary;

pub use file_diff::FileDiff;
pub use lcov_file::{Lcov, LcovError, LcovFile};
pub use record::{
    branches_found, branches_hit, function_hit_count, function_name, functions_found,
    functions_hit, line_number_hit_count, lines_found, lines_hit, source_file_path, Counter,
    Record, Tag,
};
pub use summary::{LcovSummary, MetricDiff, Percentage, PercentageDelta, SummaryDiff};
