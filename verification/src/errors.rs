//! The failures the install and removal pipelines can report.

use vstd::prelude::*;

verus! {

/// No manifest for the requested identifier exists in the registry, or no
/// entry for it exists in the binary index.
#[derive(Debug)]
pub struct PackageNotFoundError(pub String);

/// The manifest exists but maps no branch to the requested version label.
#[derive(Debug)]
pub struct PackageVersionNotFoundError {
    pub id: String,
    pub version: String,
}

/// The manifest's version mapping is empty, so nothing can be installed.
#[derive(Debug)]
pub struct PackageNoVersionsError(pub String);

/// The binary index file does not exist yet.
#[derive(Debug)]
pub struct NoBinaryIndex;

/// Everything an operation can fail with.
///
/// `RegistrySyncFailure` and `FilesystemFailure` carry a message for the
/// operator; the wrapped structs carry the identifier and version needed to
/// retry by hand.
#[derive(Debug)]
pub enum OpError {
    /// The registry mirror or a working copy could not be synchronized.
    RegistrySyncFailure(String),
    PackageNotFound(PackageNotFoundError),
    PackageVersionNotFound(PackageVersionNotFoundError),
    PackageNoVersions(PackageNoVersionsError),
    NoIndex(NoBinaryIndex),
    /// No build event carried a produced executable.
    ArtifactNotFound,
    /// A file could not be read, written, moved or deleted, or held
    /// undecodable contents.
    FilesystemFailure(String),
}

} // verus!
