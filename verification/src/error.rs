//! The ways in which an operation of the engine fails.

use vstd::prelude::*;

verus! {

/// Why an operation failed.
#[derive(Debug, Clone, Copy, PartialEq, Eq, Structural)]
pub enum ErrorKind {
    /// A name that is to be added is taken.
    AlreadyExists,
    /// A name that is looked up, removed, updated or copied is not registered.
    NotFound,
    /// A package names a type that the type registry does not hold.
    UnknownType,
    /// A type names a shell that the type registry does not hold.
    UnknownShell,
    /// The shell or the script could not be started.
    ProcessSpawnFailure,
    /// What the script printed is no text.
    ProcessOutputDecodeFailure,
    /// A directory or file could not be created, removed or copied.
    FilesystemFailure,
    /// A registry file could not be read, written or parsed.
    PersistenceFailure,
}

} // verus!
