//! Checkpoint and restore of the GPU state of a Linux process: detection of
//! GPU-backed memory from procfs artifacts, strategy selection, and the
//! BAR-sliding checkpoint file codec.
use vstd::prelude::*;

pub mod checkpoint;
pub mod detector;
pub mod restore;
pub mod text;

pub use checkpoint::{CheckpointEngine, CheckpointStrategy};
pub use detector::{AllocationType, GpuAllocation};
pub use restore::RestoreEngine;

verus! {

/// `std::io::Error`, carried opaquely inside `GpuCheckpointError::IoError`.
#[verifier::external_type_specification]
#[verifier::external_body]
pub struct ExIoError(std::io::Error);

/// The closed set of failures of detection, checkpoint and restore.
#[derive(Debug)]
pub enum GpuCheckpointError {
    /// Generic detection failure.
    DetectionError(String),
    /// Generic checkpoint failure.
    CheckpointError(String),
    /// A checkpoint file that cannot be restored (bad magic or version).
    RestoreError(String),
    /// A low-level I/O failure not otherwise classified.
    IoError(std::io::Error),
    /// The procfs entries of the process do not exist.
    ProcessNotFound(u32),
    /// Access to a procfs entry or to process memory was refused.
    PermissionDenied,
    /// A vendor SDK failure.
    GpuDeviceError(String),
    /// Strategy selection failure.
    StrategyError(String),
}

pub type Result<T> = std::result::Result<T, GpuCheckpointError>;

} // verus!
