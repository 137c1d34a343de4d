//! Aggregate and top-N file-size statistics over directory trees.
//!
//! The library holds the logic of one traversal: filtering entries, counting
//! and summing sizes, keeping the largest files with bounded memory, grouping
//! sizes by extension, and turning the results into report lines. Walking the
//! file system and printing are left to the caller.

pub mod dir_info;
pub mod error;
pub mod exec;
pub mod ext_stats;
pub mod globs;
pub mod ranking;
pub mod report;
pub mod support;
pub mod top_files;

pub use dir_info::{DirEntryInfo, DirInfo, DirInfoProcessor, ExtStat, ExtStats, WalkEntry};
pub use ext_stats::ExtAggregator;
pub use support::{format_num, format_size};
pub use top_files::TopFiles;
pub use error::Error;
pub use globs::{compile_globs, glob_set_matches};
pub use exec::{parse_count, split_commas, Args, Options, DEFAULT_DIR, TOP_NUMS};
pub use report::{detail_lines, summary_lines};
