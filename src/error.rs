use vstd::prelude::*;

verus! {

/// Everything that can go wrong while resolving, fetching or checking packages.
#[derive(Debug, Clone, PartialEq, Eq)]
pub enum VesselError {
    /// The project configuration is missing or incomplete.
    Config(String),
    /// A name that is not in the package set.
    UnknownPackage(String),
    /// The package set has a dependency cycle, so no build order exists.
    Cycle,
    /// A name or version that cannot be used as a directory name.
    Validation(String),
    /// A download answered with a failure status.
    Network(String),
    /// A downloaded archive did not unpack to a single directory.
    Archive(String),
    /// An external process exited unsuccessfully; holds its diagnostics.
    Subprocess(String),
    /// Creating, renaming or removing a directory failed.
    Filesystem(String),
    /// The compiler cannot be installed on this host.
    UnsupportedPlatform,
    /// Some packages failed verification; holds their names in the order checked.
    VerificationFailed(Vec<String>),
}

} // verus!
