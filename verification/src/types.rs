//! The data model: export records, their mathematical content, and the
//! configuration toggles that drive the pipeline.

use vstd::prelude::*;

verus! {

/// The shape of a re-export statement: a list of named symbols, a module's
/// default symbol, or a whole module's namespace.
#[derive(Clone, Copy, PartialEq, Eq, Structural, Debug)]
pub enum ExportKind {
    Named,
    Default,
    Namespace,
}

/// One recognized export statement occurrence.
///
/// Records are value objects: two records are duplicates exactly when
/// `export_type`, `specifier`, `source` and `is_type_export` agree; `line`
/// is kept for diagnostics only and takes no part in equality or ordering.
#[derive(Debug)]
pub struct ExportInfo {
    /// The exported name, the sentinel `"default"` for a bare default
    /// re-export, or `"*"` for an un-aliased namespace re-export.
    pub specifier: String,
    /// The module path string as written in source, unresolved.
    pub source: String,
    /// Which of the three statement shapes produced this record.
    pub export_type: ExportKind,
    /// Whether the statement used the type-only export modifier.
    pub is_type_export: bool,
    /// 1-based line number of origin, saturating at `u32::MAX`.
    pub line: u32,
}

/// The mathematical content of an [`ExportInfo`]: the same fields with the
/// strings seen as character sequences.
pub struct ExportData {
    pub specifier: Seq<char>,
    pub source: Seq<char>,
    pub export_type: ExportKind,
    pub is_type_export: bool,
    pub line: u32,
}

impl View for ExportInfo {
    type V = ExportData;

    open spec fn view(&self) -> ExportData {
        ExportData {
            specifier: self.specifier@,
            source: self.source@,
            export_type: self.export_type,
            is_type_export: self.is_type_export,
            line: self.line,
        }
    }
}

impl DeepView for ExportInfo {
    type V = ExportData;

    open spec fn deep_view(&self) -> ExportData {
        self.view()
    }
}

impl Clone for ExportInfo {
    fn clone(&self) -> (r: Self)
        ensures
            r@ == self@,
    {
        ExportInfo {
            specifier: self.specifier.clone(),
            source: self.source.clone(),
            export_type: self.export_type,
            is_type_export: self.is_type_export,
            line: self.line,
        }
    }
}

/// Configuration toggles, each read once per invocation; an unset field
/// falls back to its documented default.
#[derive(Clone, Copy, Debug)]
pub struct BarrelLoaderOptions {
    /// Accepted for compatibility; no transformation consumes it.
    pub optimize: Option<bool>,
    /// Order records by `(source, specifier)`; defaults to off.
    pub sort: Option<bool>,
    /// Drop records whose key was already seen; defaults to on.
    pub remove_duplicates: Option<bool>,
    /// Emit diagnostic notifications; never affects returned content.
    pub verbose: Option<bool>,
    /// Accepted for compatibility; no transformation consumes it.
    pub convert_namespace_to_named: Option<bool>,
    /// Accepted for compatibility; no transformation consumes it.
    pub resolve_barrel_exports: Option<bool>,
}

impl BarrelLoaderOptions {
    /// Sorting is requested: the toggle is set and true (default off).
    pub open spec fn sort_on(self) -> bool {
        self.sort == Some(true)
    }

    /// Deduplication is requested: the toggle is unset or true (default on).
    pub open spec fn dedupe_on(self) -> bool {
        self.remove_duplicates != Some(false)
    }

    /// Verbose diagnostics are requested (default off).
    pub open spec fn verbose_on(self) -> bool {
        self.verbose == Some(true)
    }

    pub fn is_sort_on(&self) -> (r: bool)
        ensures
            r == self.sort_on(),
    {
        match self.sort {
            Some(b) => b,
            None => false,
        }
    }

    pub fn is_dedupe_on(&self) -> (r: bool)
        ensures
            r == self.dedupe_on(),
    {
        match self.remove_duplicates {
            Some(b) => b,
            None => true,
        }
    }

    pub fn is_verbose_on(&self) -> (r: bool)
        ensures
            r == self.verbose_on(),
    {
        match self.verbose {
            Some(b) => b,
            None => false,
        }
    }
}

impl Default for BarrelLoaderOptions {
    /// All toggles unset, so every field falls back to its default.
    fn default() -> (r: Self)
        ensures
            r.optimize is None,
            r.sort is None,
            r.remove_duplicates is None,
            r.verbose is None,
            r.convert_namespace_to_named is None,
            r.resolve_barrel_exports is None,
    {
        BarrelLoaderOptions {
            optimize: None,
            sort: None,
            remove_duplicates: None,
            verbose: None,
            convert_namespace_to_named: None,
            resolve_barrel_exports: None,
        }
    }
}

} // verus!
