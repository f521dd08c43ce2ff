//! Error type shared by the chart conversion and layout building pipelines.

use vstd::prelude::*;

verus! {

/// Classifies a conversion or layout failure.
#[derive(Clone, Copy, Debug, PartialEq, Eq, Structural)]
pub enum CylToolErrorKind {
    /// A structural rule of the chart was violated (bad note type,
    /// out-of-range x, inconsistent page size or tempo, degenerate page
    /// or tempo values).
    InvalidChart,
    /// Legacy-compatibility mode was requested but the marker event is absent.
    MissingLegacyMarker,
    /// Legacy-compatibility mode was requested but the tempo list does not
    /// have the shape that mode requires.
    InvalidTempoForLegacyMode,
    /// A note id or page index refers to a note or page that does not exist.
    DanglingReference,
    /// The chart has no pages or no tempo entries.
    EmptyChart,
}

/// An error produced while converting a chart or building its layout model.
#[derive(Clone, Debug)]
pub struct CylToolError {
    pub kind: CylToolErrorKind,
    pub message: String,
}

impl CylToolError {
    /// Builds an error carrying `msg`, classified as a structural violation.
    pub fn new(msg: &str) -> (r: Self)
        ensures
            r.kind == CylToolErrorKind::InvalidChart,
            r.message@ == msg@,
    {
        CylToolError { kind: CylToolErrorKind::InvalidChart, message: msg.to_owned() }
    }

    /// Builds an error with an explicit kind.
    pub fn with_kind(kind: CylToolErrorKind, message: String) -> (r: Self)
        ensures
            r.kind == kind,
            r.message == message,
    {
        CylToolError { kind, message }
    }

    /// The human-readable description of the failure.
    pub fn message(&self) -> (r: &str)
        ensures
            r@ == self.message@,
    {
        self.message.as_str()
    }
}

} // verus!
