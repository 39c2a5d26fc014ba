//! A verified core for a reflected-XSS batch scanner.
//!
//! Given a list of target URLs, each URL is fetched once (by the caller),
//! its query string is split into raw key/value pairs, each value is
//! percent-decoded, a fixed table of detection rules extracts candidate tags
//! from the decoded values, and each candidate is tested for literal
//! containment in the response body. Every URL ends in exactly one
//! [`outcome::ScanOutcome`]; the [`dispatch::Dispatcher`] state machine keeps
//! at most a fixed number of runs in flight and pairs every outcome to its
//! originating URL, whatever order the runs complete in.

pub mod bytes;
pub mod percent;
pub mod query;
pub mod headers;
pub mod extract;
pub mod outcome;
pub mod pipeline;
pub mod dispatch;
