//! Scan outcomes and the per-URL error taxonomy, with their mathematical
//! models. Every Target URL ends in exactly one `ScanOutcome`.

use vstd::prelude::*;

verus! {

/// What one fetched response looks like to the pipeline: the HTTP status and
/// the full body as bytes.
#[derive(Debug, PartialEq, Eq)]
pub struct FetchOutput {
    pub status: u16,
    pub body: Vec<u8>,
}

/// A per-URL failure: the fetch failed, the URL did not parse, or a
/// parameter value held a malformed percent escape (`param` is the index of
/// the first such parameter).
#[derive(Debug, PartialEq, Eq)]
pub enum ScanError {
    Fetch { message: String },
    UrlParse { message: String },
    Decoding { param: usize },
}

/// The one outcome a Target URL scans to.
#[derive(Debug, PartialEq, Eq)]
pub enum ScanOutcome {
    Reflected { tag: Vec<u8>, status: u16 },
    NotReflected { status: u16 },
    Failed { error: ScanError },
}

/// Mathematical form of `ScanError`.
pub enum ErrorModel {
    Fetch { message: Seq<char> },
    UrlParse { message: Seq<char> },
    Decoding { param: int },
}

/// Mathematical form of `ScanOutcome`.
pub enum OutcomeModel {
    Reflected { tag: Seq<u8>, status: u16 },
    NotReflected { status: u16 },
    Failed { error: ErrorModel },
}

impl View for ScanError {
    type V = ErrorModel;

    open spec fn view(&self) -> ErrorModel {
        match self {
            ScanError::Fetch { message } => ErrorModel::Fetch { message: message@ },
            ScanError::UrlParse { message } => ErrorModel::UrlParse { message: message@ },
            ScanError::Decoding { param } => ErrorModel::Decoding { param: *param as int },
        }
    }
}

impl View for ScanOutcome {
    type V = OutcomeModel;

    open spec fn view(&self) -> OutcomeModel {
        match self {
            ScanOutcome::Reflected { tag, status } => OutcomeModel::Reflected {
                tag: tag@,
                status: *status,
            },
            ScanOutcome::NotReflected { status } => OutcomeModel::NotReflected {
                status: *status,
            },
            ScanOutcome::Failed { error } => OutcomeModel::Failed { error: error@ },
        }
    }
}

} // verus!
