//! The report of a mapping: where it comes from, when it was made, its
//! summary, its tree and its warnings.
use vstd::prelude::*;
use crate::text;
use crate::node::FileNode;
use crate::metrics::RelatorioMetricas;
use crate::warning::ScanWarning;

verus! {

/// The prefix that marks a verbatim path on Windows.
pub open spec fn verbatim_prefix() -> Seq<char> {
    r"\\?\"@
}

/// A path as shown in reports: the verbatim prefix, if any, is left out.
pub open spec fn shown_path(path: Seq<char>) -> Seq<char> {
    text::strip_prefix_or_keep(path, verbatim_prefix())
}

/// The path as shown in reports (`path` is the path as displayed).
pub fn display_path(path: &str) -> (r: String)
    ensures
        r@ == shown_path(path@),
{
    text::strip_prefix_text(path, r"\\?\")
}

/// A mapping report.
pub struct MappingReport {
    pub source: String,
    pub generated_at: String,
    pub summary: RelatorioMetricas,
    pub tree: FileNode,
    pub warnings: Vec<ScanWarning>,
}

impl MappingReport {
    /// A report with no warnings. `generated_at` is the generation time as
    /// read from the local clock by the caller.
    pub fn new(source: &str, generated_at: String, summary: RelatorioMetricas, tree: FileNode) -> (r: Self)
        ensures
            r.source@ == shown_path(source@),
            r.generated_at == generated_at,
            r.summary == summary,
            r.tree == tree,
            r.warnings@.len() == 0,
    {
        Self::with_warnings(source, generated_at, summary, tree, Vec::new())
    }

    /// A report with the given generation time (as read from the local clock
    /// by the caller) and warnings.
    pub fn with_warnings(
        source: &str,
        generated_at: String,
        summary: RelatorioMetricas,
        tree: FileNode,
        warnings: Vec<ScanWarning>,
    ) -> (r: Self)
        ensures
            r.source@ == shown_path(source@),
            r.generated_at == generated_at,
            r.summary == summary,
            r.tree == tree,
            r.warnings == warnings,
    {
        MappingReport { source: display_path(source), generated_at, summary, tree, warnings }
    }

    /// The report of a scan of `source`. `canonical` is the canonical form of
    /// `source` as displayed, when it could be had; otherwise `source` itself
    /// is used. `generated_at` is the generation time.
    pub fn from_scan(
        source: &str,
        canonical: Option<&str>,
        generated_at: String,
        tree: FileNode,
        summary: RelatorioMetricas,
        warnings: Vec<ScanWarning>,
    ) -> (r: Self)
        ensures
            r.source@ == shown_path(
                match canonical {
                    Some(c) => c@,
                    None => source@,
                },
            ),
            r.generated_at == generated_at,
            r.summary == summary,
            r.tree == tree,
            r.warnings == warnings,
    {
        let chosen: &str = match canonical {
            Some(c) => c,
            None => source,
        };
        Self::with_warnings(chosen, generated_at, summary, tree, warnings)
    }
}

}
