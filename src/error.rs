use vstd::prelude::*;

verus! {

/// Why a launch was abandoned.
#[derive(Debug, Clone, Copy, PartialEq, Eq, Structural)]
pub enum LaunchError {
    /// The application directory or a buildpack's layer root is absent.
    NotFound,
    /// A read, a change of directory or the exec itself failed.
    Io,
    /// A value cannot stand in a path list or in an exported environment.
    Encoding,
    /// No process could be chosen to run.
    ProcessNotFound,
}

} // verus!
