//! The data model: the configuration record consumed by the counting engine
//! and the report record it produces.

use vstd::prelude::*;

verus! {

/// How the per-file entries of a report are ordered.
#[derive(Debug, Clone)]
pub enum SortOrder {
    /// Descending by line count.
    Lines,
    /// Ascending by path name.
    Name,
    /// Traversal order; no sort is applied.
    Unsorted,
}

impl Default for SortOrder {
    fn default() -> (r: Self)
        ensures
            r is Lines,
    {
        SortOrder::Lines
    }
}

/// The configuration for one counting run, built once by the caller and
/// consumed read-only.
#[derive(Debug, Clone)]
pub struct CountConfig {
    /// Root paths to traverse; when empty, the current directory is used.
    pub paths: Vec<String>,
    /// Extension filters, without the leading dot.
    pub extensions: Vec<String>,
    /// Glob filters, anchored at the first root.
    pub globs: Vec<String>,
    /// Whether hidden entries and ignore-file rules are honored.
    pub use_ignore: bool,
    /// The order of the `files` sequence in the report.
    pub sort: SortOrder,
}

/// One successfully counted file: its path and its newline count.
#[derive(Debug)]
pub struct FileCount {
    pub path: String,
    pub lines: u64,
}

impl Clone for FileCount {
    fn clone(&self) -> (r: Self)
        ensures
            r == *self,
    {
        FileCount { path: self.path.clone(), lines: self.lines }
    }
}

/// The aggregate for one distinct extension: how many files carry it and how
/// many lines they hold together. The empty extension stands for "none".
#[derive(Debug)]
pub struct ExtensionSummary {
    pub extension: String,
    pub file_count: u64,
    pub total_lines: u64,
}

impl Clone for ExtensionSummary {
    fn clone(&self) -> (r: Self)
        ensures
            r == *self,
    {
        ExtensionSummary {
            extension: self.extension.clone(),
            file_count: self.file_count,
            total_lines: self.total_lines,
        }
    }
}

/// The report of one run: the ordered per-file counts, their totals, and the
/// per-extension breakdown sorted descending by line total.
#[derive(Debug)]
pub struct CountResult {
    pub files: Vec<FileCount>,
    pub total_lines: u64,
    pub total_files: u64,
    pub by_extension: Vec<ExtensionSummary>,
}

impl Clone for CountResult {
    fn clone(&self) -> (r: Self)
        ensures
            r.files@ == self.files@,
            r.total_lines == self.total_lines,
            r.total_files == self.total_files,
            r.by_extension@ == self.by_extension@,
    {
        CountResult {
            files: self.files.clone(),
            total_lines: self.total_lines,
            total_files: self.total_files,
            by_extension: self.by_extension.clone(),
        }
    }
}

} // verus!
