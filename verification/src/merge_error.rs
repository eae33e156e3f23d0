//! Errors that happen while creating the merged output static library from
//! the extracted inputs.

use vstd::prelude::*;

verus! {

#[verifier::external_type_specification]
#[verifier::external_body]
pub struct ExIoError(std::io::Error);

#[verifier::external_type_specification]
#[verifier::external_body]
pub struct ExObjectReadError(object::read::Error);

#[allow(inconsistent_fields)]
#[derive(Debug)]
pub enum MergeError {
    /// An external tool exited with a failure status.
    ExternalToolError {
        reason: String,
        tool: String,
        args: Vec<String>,
        stdout: String,
        stderr: String,
    },
    /// An external tool could not be spawned at all.
    ExternalToolLaunchError { tool: String, inner: std::io::Error },
    /// An extracted object file could not be parsed.
    InvalidObject { path: String, inner: object::read::Error },
    /// Zero objects left after filtering; at least one public symbol must be
    /// kept.
    NoObjectsLeft,
    /// Failure emitting the output archive.
    WritingArchive(std::io::Error),
    /// Any other filesystem I/O failure.
    InternalIoError(std::io::Error),
    /// An anomaly inside the builtin symbol rewriter or group demoter.
    InternalError(String),
}

} // verus!
