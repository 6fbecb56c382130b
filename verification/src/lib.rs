//! A package manager for precompiled command-line tools.
//!
//! Packages are described by manifests in a version-controlled registry;
//! installing a package synchronizes its source, builds it, relocates the
//! produced binary, and records it in a persistent binary index.
//!
//! Everything that decides lives here and is verified: the file formats
//! ([`json`]), manifest resolution ([`index`]), the artifact locator
//! ([`events`]), and the install and removal pipelines ([`pipeline`],
//! [`packages`]), which name what must be done to the world as values and
//! consume what came of it. The thin shell that performs those actions —
//! the network, the disk, the build toolchain — stands outside.

use vstd::prelude::*;

pub mod errors;
pub mod events;
pub mod experiments;
pub mod index;
pub mod json;
pub mod packages;
pub mod pipeline;
pub mod table;
pub mod text;

verus! {

/// A label a user may request without naming a concrete version; it selects
/// whatever branch the manifest maps it to.
pub const LATEST_LABEL: &'static str = "latest";

} // verus!
