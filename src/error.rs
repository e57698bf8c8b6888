use vstd::prelude::*;

verus! {

/// Error kinds surfaced by the installer core.
#[derive(Debug, Clone, PartialEq, Eq)]
pub enum SpsError {
    /// An underlying filesystem failure.
    Io(String),
    /// Archive traversal, unsupported kind, malformed path or an object
    /// file that cannot be parsed.
    Generic(String),
    /// A required tool is missing from the build environment.
    BuildEnvError(String),
    /// `codesign` failed on a patched binary.
    CodesignError(String),
    /// A phase of an upgrade failed.
    InstallError(String),
    /// A required path is absent.
    NotFound(String),
}

} // verus!
