//! Rewrites "barrel" re-export files: module index files that exist only to
//! re-export symbols from sibling modules.
//!
//! The pipeline recognizes barrel files by their basename, extracts
//! structured export records from line-oriented source text, optionally
//! deduplicates and sorts those records, and regenerates normalized
//! re-export statements grouped by origin module. Processing is pure: the
//! same text, path and options always give the same result, and a
//! non-barrel path or a barrel file without exports passes through
//! unchanged, byte for byte.

pub mod classify;
pub mod dedupe;
pub mod group;
pub mod laws;
pub mod parse;
pub mod pipeline;
pub mod render;
pub mod sort;
pub mod text;
pub mod types;

use vstd::prelude::*;

use crate::pipeline::ProcessReport;
use crate::pipeline::process_spec;
use crate::types::BarrelLoaderOptions;
use crate::types::ExportInfo;

verus! {

/// The barrel loader: one configuration, applied to any number of files.
pub struct BarrelLoader {
    options: BarrelLoaderOptions,
}

impl BarrelLoader {
    /// The configuration this loader applies.
    pub closed spec fn options_spec(&self) -> BarrelLoaderOptions {
        self.options
    }

    /// Build a loader around the given configuration.
    pub fn new(options: BarrelLoaderOptions) -> (r: Self)
        ensures
            r.options_spec() == options,
    {
        BarrelLoader { options }
    }

    /// Check whether a file path names a barrel file.
    pub fn is_barrel_file(&self, file_path: &str) -> (r: bool)
        ensures
            r == crate::classify::is_barrel_path(file_path@),
    {
        crate::classify::is_barrel_file(file_path)
    }

    /// Parse every line of `source` into export records; never fails.
    pub fn parse_exports(&self, source: &str) -> (r: Vec<ExportInfo>)
        ensures
            r.deep_view() == crate::parse::parse_exports_spec(source@),
    {
        crate::parse::parse_exports(source)
    }

    /// Remove duplicate records, keeping first occurrences in order.
    pub fn remove_duplicates(&self, exports: Vec<ExportInfo>) -> (r: Vec<ExportInfo>)
        ensures
            r.deep_view() == crate::dedupe::dedupe_spec(exports.deep_view()),
    {
        crate::dedupe::remove_duplicates(exports)
    }

    /// Sort records by source module, then specifier; stable.
    pub fn sort_exports(&self, exports: Vec<ExportInfo>) -> (r: Vec<ExportInfo>)
        ensures
            r.deep_view() == crate::sort::sort_spec(exports.deep_view()),
    {
        crate::sort::sort_exports(exports)
    }

    /// Regenerate a barrel file's text from its export records.
    pub fn reconstruct_source(&self, original_source: &str, exports: &Vec<ExportInfo>) -> (r:
        String)
        ensures
            r@ == crate::render::reconstruct_spec(original_source@, exports.deep_view()),
    {
        crate::render::reconstruct_source(original_source, exports)
    }

    /// Process one file under this loader's configuration.
    pub fn process(&self, source: &str, file_path: &str) -> (r: String)
        ensures
            r@ == process_spec(source@, file_path@, self.options_spec()),
    {
        crate::pipeline::process_file(source, file_path, &self.options)
    }

    /// Process one file and report what happened, for diagnostics.
    pub fn process_with_report(&self, source: &str, file_path: &str) -> (r: (
        String,
        ProcessReport,
    ))
        ensures
            r.0@ == process_spec(source@, file_path@, self.options_spec()),
    {
        crate::pipeline::process_with_report(source, file_path, &self.options)
    }
}

} // verus!
