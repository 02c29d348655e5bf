//! Checkpoint strategy selection and the engine configuration.
use vstd::prelude::*;

pub mod bar_sliding;

pub use bar_sliding::{BarSlidingCheckpoint, CheckpointMetadata as BarCheckpointMetadata};

use crate::detector::DetectionResult;

verus! {

#[derive(Debug, Clone, Copy, PartialEq, Eq, Structural)]
pub enum CheckpointStrategy {
    /// The vendor checkpoint API: fastest, but limited to standard allocations.
    CudaCheckpoint,
    /// BAR sliding: universal, but slower.
    BarSliding,
    /// A mix chosen per allocation type; only chosen explicitly.
    Hybrid,
    /// No GPU state to save.
    SkipGpu,
}

#[derive(Debug)]
pub struct CheckpointConfig {
    pub strategy: CheckpointStrategy,
    pub storage_path: String,
    pub bandwidth_mbps: u64,
    /// Wall-clock limit for a checkpoint, in seconds.
    pub timeout_secs: u64,
    pub compression: bool,
}

pub struct CheckpointEngine {
    config: CheckpointConfig,
}

/// The strategy for a detection: skip when nothing was found, BAR sliding
/// when anything is problematic, else the vendor checkpoint API.
pub open spec fn spec_select_strategy(detection: &DetectionResult) -> CheckpointStrategy {
    if detection.allocations@.len() == 0 {
        CheckpointStrategy::SkipGpu
    } else if exists|i: int|
        0 <= i < detection.allocations@.len()
            && (#[trigger] detection.allocations@[i]).alloc_type.spec_is_problematic() {
        CheckpointStrategy::BarSliding
    } else {
        CheckpointStrategy::CudaCheckpoint
    }
}

impl CheckpointEngine {
    pub fn new(config: CheckpointConfig) -> (r: Self)
        ensures
            r.config() == config,
    {
        CheckpointEngine { config }
    }

    pub closed spec fn config(&self) -> CheckpointConfig {
        self.config
    }

    /// The engine's configuration.
    pub fn get_config(&self) -> (r: &CheckpointConfig)
        ensures
            *r == self.config(),
    {
        &self.config
    }

    /// Chooses how to checkpoint the GPU state that `detection` describes;
    /// `Hybrid` is never chosen here.
    pub fn select_strategy(detection: &DetectionResult) -> (r: CheckpointStrategy)
        ensures
            r == spec_select_strategy(detection),
            r != CheckpointStrategy::Hybrid,
    {
        if detection.allocations.len() == 0 {
            return CheckpointStrategy::SkipGpu;
        }
        if detection.has_problematic_allocations() {
            return CheckpointStrategy::BarSliding;
        }
        CheckpointStrategy::CudaCheckpoint
    }
}

/// What a checkpoint produced.
#[derive(Debug)]
pub struct CheckpointMetadata {
    pub pid: u32,
    pub strategy_used: CheckpointStrategy,
    /// Completion time, in whole seconds since the Unix epoch.
    pub timestamp: u64,
    pub size_bytes: u64,
    pub duration_ms: u64,
}

} // verus!
