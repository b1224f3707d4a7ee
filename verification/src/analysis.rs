//! Track-analysis status as reported to the UI. The analysis itself (decoding and
//! tempo/key detection) is floating point and happens outside this crate.
use vstd::prelude::*;

verus! {

/// Status of an analysis operation.
#[derive(Clone, Copy, Debug, PartialEq, Eq, Structural)]
pub enum AnalysisStatus {
    Pending,
    Analyzing,
    Completed,
    Failed,
    Cancelled,
}

} // verus!
