//! GPU allocation detection: the data model, the procfs parsers, the
//! classifiers and the vendor detectors.
use vstd::prelude::*;

pub mod memory;
pub mod nvidia;
pub mod process;
pub mod types;

pub use memory::{MemoryMapParser, MemoryRegion};
pub use nvidia::NvidiaDetector;
pub use process::{FileDescriptor, GpuDeviceType, GpuFdInfo, ProcessScanner};

pub use types::{
    AllocationMetadata, AllocationType, AllocationView, DetectionResult, DetectionStats,
    GpuAllocation, GpuVendor,
};

use crate::GpuCheckpointError;

verus! {

/// The successful outcomes of `outcomes`, in order.
pub open spec fn successes(outcomes: Seq<Result<DetectionResult, GpuCheckpointError>>) -> Seq<
    DetectionResult,
>
    decreases outcomes.len(),
{
    if outcomes.len() == 0 {
        Seq::empty()
    } else {
        let rest = successes(outcomes.drop_last());
        match outcomes.last() {
            Ok(d) => rest.push(d),
            Err(_) => rest,
        }
    }
}

/// The vendor detectors available on this machine.
pub struct CompositeDetector {
    detectors: Vec<NvidiaDetector>,
}

impl CompositeDetector {
    /// The detectors for the devices present: NVIDIA when `nvidia_present`
    /// (`/dev/nvidia0` or `/dev/nvidiactl` exists).
    pub fn new(nvidia_present: bool) -> (r: Self)
        ensures
            r.vendors_spec() == if nvidia_present {
                seq![GpuVendor::Nvidia]
            } else {
                Seq::empty()
            },
    {
        let mut detectors: Vec<NvidiaDetector> = Vec::new();
        if nvidia_present {
            detectors.push(NvidiaDetector::new());
        }
        CompositeDetector { detectors }
    }

    /// The vendors of the detectors, in order.
    pub closed spec fn vendors_spec(&self) -> Seq<GpuVendor> {
        Seq::new(self.detectors@.len(), |i: int| GpuVendor::Nvidia)
    }

    /// The vendors of the detectors, in order.
    pub fn vendors(&self) -> (r: Vec<GpuVendor>)
        ensures
            r@ == self.vendors_spec(),
    {
        let mut out: Vec<GpuVendor> = Vec::new();
        let mut i: usize = 0;
        while i < self.detectors.len()
            invariant
                i <= self.detectors@.len(),
                out@ == self.vendors_spec().take(i as int),
            decreases self.detectors.len() - i,
        {
            out.push(self.detectors[i].get_vendor());
            assert(out@ =~= self.vendors_spec().take(i + 1));
            i += 1;
        }
        assert(out@ =~= self.vendors_spec());
        out
    }

    /// The results of the detectors that succeeded, given each detector's
    /// outcome in order; a detector's failure does not fail the whole.
    pub fn detect_all(
        &self,
        outcomes: Vec<Result<DetectionResult, GpuCheckpointError>>,
    ) -> (r: Result<Vec<DetectionResult>, GpuCheckpointError>)
        ensures
            r matches Ok(v) && v@ == successes(outcomes@),
    {
        let mut results: Vec<DetectionResult> = Vec::new();
        let ghost all = outcomes@;
        let n = outcomes.len();
        let mut k: usize = 0;
        for outcome in it: outcomes
            invariant
                it.seq() == all,
                all.len() == n,
                k == it.index(),
                results@ == successes(all.take(k as int)),
        {
            assert(all.take(k + 1).drop_last() =~= all.take(k as int));
            assert(all.take(k + 1).last() == outcome);
            match outcome {
                Ok(result) => results.push(result),
                Err(_) => {},
            }
            k += 1;
        }
        assert(all.take(all.len() as int) =~= all);
        Ok(results)
    }
}

} // verus!
