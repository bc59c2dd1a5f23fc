//! The error taxonomy of the export pipeline. Every variant carries the
//! path, format or name it is about.

use vstd::prelude::*;

verus! {

/// Errors that end an export call. All are terminal: nothing is retried,
/// and artifacts already written stay on disk.
#[derive(Debug, Clone, PartialEq, Eq)]
pub enum ExportError {
    /// The source design file does not exist.
    NotFound(String),
    /// The external rendering tool exited non-zero or produced unreadable
    /// output; the payload is its diagnostic text.
    ExternalToolFailure(String),
    /// An SVG document failed to parse, lacked a `viewBox`, or had an
    /// empty body; the payload names the artboard or file.
    InvalidSvg(String),
    /// A single-file destination was asked to receive more than one
    /// artboard or more than one format.
    AmbiguousOutput(String),
    /// The rendering tool did not produce the file expected at the
    /// computed path.
    MissingExpectedArtifact(String),
    /// A glob pattern could not be compiled; the payload is the pattern.
    InvalidGlob(String),
    /// The deletion guard refused to remove the path in the payload.
    UnsafeRemoval(String),
}

} // verus!
