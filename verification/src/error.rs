//! The error kinds that the library's operations report.

use vstd::prelude::*;

verus! {

/// Why an operation of the library failed.
#[derive(Debug, Clone, Copy, PartialEq, Eq, Structural)]
pub enum Error {
    /// A file or directory could not be read or written.
    Io,
    /// The package manifest lacks a required field or is not well formed.
    MalformedManifest,
    /// An artifact's file name holds no `@` between name and version.
    MalformedArtifactName,
    /// A line of an index document is not a valid header or row; `line`
    /// counts from 1.
    MalformedDatabaseRow { line: usize },
    /// The artifact directory of the requested architecture does not exist.
    MissingDirectory,
    /// The transport could not deliver a response.
    TransportFailure,
    /// The manifest's build command did not report success.
    BuildScriptFailure,
    /// The index document declares a major version above the supported one.
    UnsupportedDatabaseVersion,
}

} // verus!
