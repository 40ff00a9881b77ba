//! A problem met while scanning: which path, what kind, and the system's message.
use vstd::prelude::*;

verus! {

/// A read failure that made the scan skip an item.
#[derive(Debug, Clone, PartialEq, Eq)]
pub struct ScanWarning {
    pub path: String,
    pub kind: String,
    pub message: String,
}

/// The mathematical value of a [`ScanWarning`].
pub struct WarningView {
    pub path: Seq<char>,
    pub kind: Seq<char>,
    pub message: Seq<char>,
}

impl View for ScanWarning {
    type V = WarningView;

    open spec fn view(&self) -> WarningView {
        WarningView { path: self.path@, kind: self.kind@, message: self.message@ }
    }
}

/// The views of a sequence of warnings.
pub open spec fn warnings_view(s: Seq<ScanWarning>) -> Seq<WarningView> {
    s.map_values(|w: ScanWarning| w@)
}

impl ScanWarning {
    /// A warning about `path` of the given kind with the given message.
    pub fn new(path: String, kind: &str, message: String) -> (r: Self)
        ensures
            r@ == (WarningView { path: path@, kind: kind@, message: message@ }),
    {
        ScanWarning { path, kind: crate::text::owned(kind), message }
    }
}

}
