use vstd::prelude::*;

verus! {

/// The single structured failure of the report-processing pipeline: every
/// identifier used in teams, winners, damages, heals or damage causes must
/// resolve against the player catalog, and the first dangling reference
/// aborts the whole transform with `MissingPlayerReference`.
#[derive(Debug, Clone, PartialEq, Eq, Structural)]
pub enum InvalidReportError {
    /// An identifier was used somewhere in the report but no player with
    /// that identifier exists in the resolved catalog.
    MissingPlayerReference { uuid: u128 },
    /// Internal fallback for unexpected states.
    Unknown,
}

pub type ReportResult<T> = Result<T, InvalidReportError>;

} // verus!
