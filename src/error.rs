use vstd::prelude::*;

verus! {

/// Everything that can go wrong while deploying.
#[derive(Debug)]
pub enum CpdError {
    /// An I/O failure that concerns the destination as a whole.
    Io { message: String },
    BoardNotFound,
    MultipleBoardsFound,
    InvalidBoardPath { path: String },
    BackupDirectoryCreationFailed { path: String },
    /// Any failure while taking the backup snapshot: always fatal.
    BackupFailed { path: String, cause: Box<CpdError> },
    FileCopyFailed { from: String, to: String },
    InvalidIgnorePattern { pattern: String },
    Configuration { message: String },
    PermissionDenied { path: String },
    InsufficientSpace,
    Cancelled,
}

/// A failure of a single file, after which the run may go on.
pub open spec fn recoverable_error(e: CpdError) -> bool {
    match e {
        CpdError::FileCopyFailed { .. } => true,
        CpdError::PermissionDenied { .. } => true,
        _ => false,
    }
}

impl CpdError {
    /// Whether the run may continue with the next file after this error.
    pub fn is_recoverable(&self) -> (r: bool)
        ensures
            r == recoverable_error(*self),
    {
        match self {
            CpdError::Io { .. } => false,
            CpdError::BoardNotFound => false,
            CpdError::MultipleBoardsFound => false,
            CpdError::InvalidBoardPath { .. } => false,
            CpdError::BackupDirectoryCreationFailed { .. } => false,
            CpdError::BackupFailed { .. } => false,
            CpdError::FileCopyFailed { .. } => true,
            CpdError::InvalidIgnorePattern { .. } => false,
            CpdError::Configuration { .. } => false,
            CpdError::PermissionDenied { .. } => true,
            CpdError::InsufficientSpace => false,
            CpdError::Cancelled => false,
        }
    }
}

} // verus!
