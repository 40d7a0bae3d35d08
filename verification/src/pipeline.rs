//! The pipeline orchestrator: classify, parse, optionally deduplicate,
//! optionally sort, reconstruct.
//!
//! A non-barrel path, and a barrel file in which no export record is
//! found, both pass the source text through unchanged, byte for byte.
//! Processing never fails: a line that matches no export shape simply
//! contributes no record.

use vstd::prelude::*;

use crate::classify::is_barrel_file;
use crate::classify::is_barrel_path;
use crate::dedupe::dedupe_spec;
use crate::dedupe::remove_duplicates;
use crate::parse::parse_exports;
use crate::parse::parse_exports_spec;
use crate::render::reconstruct_source;
use crate::render::reconstruct_spec;
use crate::sort::sort_exports;
use crate::sort::sort_spec;
use crate::types::BarrelLoaderOptions;
use crate::types::ExportData;

verus! {

/// The record list after the optional deduplication and sorting stages.
pub open spec fn normalized_records(s: Seq<ExportData>, opts: BarrelLoaderOptions) -> Seq<
    ExportData,
> {
    let r1 = if opts.dedupe_on() {
        dedupe_spec(s)
    } else {
        s
    };
    if opts.sort_on() {
        sort_spec(r1)
    } else {
        r1
    }
}

/// What processing returns: the source unchanged for a non-barrel path or
/// a barrel file without export records, and otherwise the reconstruction
/// of the normalized records.
pub open spec fn process_spec(
    source: Seq<char>,
    path: Seq<char>,
    opts: BarrelLoaderOptions,
) -> Seq<char> {
    if !is_barrel_path(path) {
        source
    } else {
        let recs = parse_exports_spec(source);
        if recs.len() == 0 {
            source
        } else {
            reconstruct_spec(source, normalized_records(recs, opts))
        }
    }
}

/// What one invocation observed, for diagnostic reporting. The pipeline's
/// returned text never depends on it.
pub struct ProcessReport {
    /// The path named a barrel file, so the pipeline looked at the text.
    pub is_barrel: bool,
    /// How many export records parsing found (zero for a non-barrel path).
    pub export_count: usize,
    /// How many records deduplication dropped (zero when it was off or
    /// nothing was processed).
    pub removed_duplicates: usize,
    /// The sorting stage ran.
    pub sorted: bool,
    /// The returned text differs from the source text.
    pub transformed: bool,
}

/// Process one file: return the source unchanged for a non-barrel path or
/// a barrel file without exports, and the normalized reconstruction
/// otherwise.
pub fn process_file(source: &str, file_path: &str, options: &BarrelLoaderOptions) -> (r: String)
    ensures
        r@ == process_spec(source@, file_path@, *options),
{
    let (text, _report) = process_with_report(source, file_path, options);
    text
}

/// Process one file and also report what happened, so a caller can emit
/// diagnostics without re-running any stage.
pub fn process_with_report(source: &str, file_path: &str, options: &BarrelLoaderOptions) -> (r: (
    String,
    ProcessReport,
))
    ensures
        r.0@ == process_spec(source@, file_path@, *options),
        r.1.is_barrel == is_barrel_path(file_path@),
        r.1.is_barrel ==> r.1.export_count == parse_exports_spec(source@).len(),
        !r.1.is_barrel ==> r.1.export_count == 0,
        r.1.removed_duplicates == if r.1.is_barrel && options.dedupe_on() {
            parse_exports_spec(source@).len() - dedupe_spec(parse_exports_spec(source@)).len()
        } else {
            0int
        },
        r.1.sorted == (r.1.is_barrel && r.1.export_count > 0 && options.sort_on()),
        r.1.transformed == (r.0@ != source@),
{
    if !is_barrel_file(file_path) {
        let text = source.to_owned();
        let transformed = !crate::text::str_eq_exec(text.as_str(), source);
        let report = ProcessReport {
            is_barrel: false,
            export_count: 0,
            removed_duplicates: 0,
            sorted: false,
            transformed,
        };
        return (text, report);
    }
    let exports = parse_exports(source);
    let count = exports.len();
    proof {
        assert(exports.deep_view().len() == exports@.len());
    }
    if count == 0 {
        let text = source.to_owned();
        let transformed = !crate::text::str_eq_exec(text.as_str(), source);
        let report = ProcessReport {
            is_barrel: true,
            export_count: 0,
            removed_duplicates: 0,
            sorted: false,
            transformed,
        };
        return (text, report);
    }
    let mut recs = exports;
    let mut removed: usize = 0;
    if options.is_dedupe_on() {
        proof {
            crate::dedupe::lemma_dedupe_len(recs.deep_view());
        }
        recs = remove_duplicates(recs);
        removed = count - recs.len();
    }
    let sorted = options.is_sort_on();
    if sorted {
        recs = sort_exports(recs);
    }
    let text = reconstruct_source(source, &recs);
    let transformed = !crate::text::str_eq_exec(text.as_str(), source);
    let report = ProcessReport {
        is_barrel: true,
        export_count: count,
        removed_duplicates: removed,
        sorted,
        transformed,
    };
    (text, report)
}

} // verus!
