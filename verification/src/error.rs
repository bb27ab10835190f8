//! Error values produced by the verified core.

use vstd::prelude::*;

use crate::catalog::CatalogReadLimitExceeded;

verus! {

/// The classes of host I/O failure that the logic distinguishes.
#[derive(Clone, Copy, Debug, PartialEq, Eq, Structural)]
pub enum IoErrorKind {
    NotFound,
    PermissionDenied,
    AlreadyExists,
    InvalidInput,
    Interrupted,
    WriteZero,
    UnexpectedEof,
    Other,
}

/// A host I/O failure reduced to its class and rendered message.
#[derive(Clone, Debug)]
pub struct IoFailure {
    pub kind: IoErrorKind,
    pub message: String,
}

/// Failures of the sketch work pool.
#[derive(Clone, Debug)]
pub enum SketchError {
    OperationCancelled,
    QueueFull,
    WorkCapacityOverflow,
    WorkerFailed { message: String },
}

/// Failures of command-level catalog, archive and path handling.
#[derive(Clone, Debug)]
pub enum CliError {
    /// Process cancellation was requested.
    OperationCanceled,
    /// A catalog read budget was exceeded.
    CatalogReadLimit(CatalogReadLimitExceeded),
    /// A host read or write failed.
    Io(IoFailure),
    /// An archive could not be encoded, decoded or validated.
    ArchiveProcess { message: String },
    /// A persisted ownership document is invalid.
    InvalidGeneratedOwnership { path: String, message: String },
    /// Two user-selected paths contain one another.
    OverlappingPaths {
        first_role: crate::paths::PathRole,
        first_path: String,
        second_role: crate::paths::PathRole,
        second_path: String,
    },
    /// A path could not be resolved.
    PathResolution { role: crate::paths::PathRole, path: String, message: String },
    /// A path has no final file name.
    MissingFileName { path: String },
    /// A path component is not UTF-8.
    NonUtf8PathComponent,
    /// A path component is not portable.
    NonPortablePathComponent { component: String },
    /// Every collision-free archive name is taken.
    ArchiveNameExhausted { root: String, unix_nanos: u128 },
    /// The host clock reports a time before the Unix epoch.
    Clock,
    /// Two owned paths differ only in the case of ASCII letters.
    PortableGeneratedPathCollision { first: String, second: String },
    /// An ownership update changes only the case of an owned path.
    CaseOnlyGeneratedPathChange { previous: String, current: String },
    /// A generated file holds content that the ownership record does not
    /// account for.
    GeneratedOwnershipRecoveryConflict { path: String },
    /// An owned generated file was edited since it was generated.
    ModifiedGeneratedOutput { path: String },
    /// A file that was never owned stands where a generated file goes.
    UnownedGeneratedOutput { path: String },
    /// Two generated paths name one host file.
    GeneratedOutputAlias { first: String, second: String },
}

} // verus!
