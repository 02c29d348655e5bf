//! The NVIDIA vendor detector: three independent scans of the memory map
//! (UVM and managed memory, IPC shared memory, PCIe BAR mappings) over what
//! the procfs scan read.
use vstd::prelude::*;

use crate::detector::memory::{
    ipc_allocation, ipc_allocation_of, is_ipc_path, make_allocation, region_allocation,
    MemoryRegion, RegionView,
};
use crate::detector::process::{
    is_nvidia_type, nvidia_index_digits, spec_classify_target, FileDescriptor, GpuDeviceType,
    GpuFdInfo, ProcessScanner,
};
use crate::detector::types::{
    alloc_views, lemma_count_type_le_len, lemma_total_size_prefix,
    total_size, AllocationType, AllocationView,
    DetectionResult, GpuAllocation, GpuVendor,
};
use crate::text::{chars_of, contains, has_infix, has_prefix, starts_with};
use crate::GpuCheckpointError;

verus! {

/// The views of a sequence of regions.
pub open spec fn region_views(s: Seq<MemoryRegion>) -> Seq<RegionView> {
    s.map_values(|r: MemoryRegion| r@)
}

/// Whether every region's range is ordered.
pub open spec fn ranges_ordered(s: Seq<MemoryRegion>) -> bool {
    forall|i: int| 0 <= i < s.len() ==> (#[trigger] s[i]).start <= s[i].end
}

/// What the UVM scan finds in one region: a UVM allocation for a mapping of
/// `/dev/nvidia-uvm`, then a managed one for CUDA-tagged anonymous memory.
pub open spec fn uvm_of(r: RegionView) -> Seq<AllocationView> {
    match r.pathname {
        None => Seq::empty(),
        Some(p) => (if has_infix(p, "/dev/nvidia-uvm"@) {
            seq![region_allocation(r.start, r.end, AllocationType::Uvm, Some(p), r.perms, has_infix(r.perms, "s"@), false)]
        } else {
            Seq::empty()
        }) + (if has_prefix(p, "[anon:"@) && has_infix(p, "cuda"@) {
            seq![region_allocation(r.start, r.end, AllocationType::Managed, None, r.perms, false, false)]
        } else {
            Seq::empty()
        }),
    }
}

/// What the IPC scan finds in one region.
pub open spec fn ipc_of(r: RegionView) -> Seq<AllocationView> {
    match r.pathname {
        Some(p) => if is_ipc_path(p) {
            seq![ipc_allocation(r, p)]
        } else {
            Seq::empty()
        },
        None => Seq::empty(),
    }
}

/// What the BAR scan finds in one region: a mapping of function 0's PCIe
/// resource file.
pub open spec fn bar_of(r: RegionView) -> Seq<AllocationView> {
    match r.pathname {
        Some(p) => if has_infix(p, "/sys/bus/pci/devices/"@) && has_infix(p, ":00.0/resource"@) {
            seq![region_allocation(r.start, r.end, AllocationType::BarMapped, Some(p), r.perms, false, false)]
        } else {
            Seq::empty()
        },
        None => Seq::empty(),
    }
}

/// Which scan.
pub enum ScanKind {
    Uvm,
    Ipc,
    Bar,
}

/// What one scan finds in one region.
pub open spec fn scan_of(kind: ScanKind, r: RegionView) -> Seq<AllocationView> {
    match kind {
        ScanKind::Uvm => uvm_of(r),
        ScanKind::Ipc => ipc_of(r),
        ScanKind::Bar => bar_of(r),
    }
}

/// What one scan finds in the regions `rs`, region by region in order.
pub open spec fn scan(kind: ScanKind, rs: Seq<RegionView>) -> Seq<AllocationView>
    decreases rs.len(),
{
    if rs.len() == 0 {
        Seq::empty()
    } else {
        scan(kind, rs.drop_last()) + scan_of(kind, rs.last())
    }
}

/// All three scans of `rs`, in the order UVM, IPC, BAR.
pub open spec fn all_scans(rs: Seq<RegionView>) -> Seq<AllocationView> {
    scan(ScanKind::Uvm, rs) + scan(ScanKind::Ipc, rs) + scan(ScanKind::Bar, rs)
}

/// The allocations that NVIDIA detection reports for `rs`: none when the
/// process shows no NVIDIA descriptor and no GPU environment.
pub open spec fn detected(rs: Seq<RegionView>, has_nvidia_fd: bool, gpu_environment: bool) -> Seq<
    AllocationView,
> {
    if !has_nvidia_fd && !gpu_environment {
        Seq::empty()
    } else {
        all_scans(rs)
    }
}

/// Whether every found allocation's size is the extent of its range.
proof fn lemma_scan_wf(kind: ScanKind, rs: Seq<RegionView>)
    requires
        forall|i: int| 0 <= i < rs.len() ==> (#[trigger] rs[i]).start <= rs[i].end,
    ensures
        forall|i: int| 0 <= i < scan(kind, rs).len() ==> (#[trigger] scan(kind, rs)[i]).wf(),
    decreases rs.len(),
{
    if rs.len() > 0 {
        let prev = rs.drop_last();
        assert forall|i: int| 0 <= i < prev.len() implies (#[trigger] prev[i]).start <= prev[i].end by {
            assert(prev[i] == rs[i]);
        }
        lemma_scan_wf(kind, prev);
        let last = rs[rs.len() - 1];
        assert(last.start <= last.end);
        let a = scan(kind, prev);
        let b = scan_of(kind, last);
        assert forall|i: int| 0 <= i < b.len() implies (#[trigger] b[i]).wf() by {}
        assert forall|i: int| 0 <= i < scan(kind, rs).len() implies (#[trigger] scan(kind, rs)[i]).wf() by {
            if i < a.len() {
                assert(scan(kind, rs)[i] == a[i]);
            } else {
                assert(scan(kind, rs)[i] == b[i - a.len()]);
            }
        }
    }
}

pub struct NvidiaDetector;

impl NvidiaDetector {
    pub fn new() -> Self {
        NvidiaDetector
    }

    /// The vendor this detector reports.
    pub fn get_vendor(&self) -> (r: GpuVendor)
        ensures
            r == GpuVendor::Nvidia,
    {
        GpuVendor::Nvidia
    }

    /// One scan over `regions`.
    fn scan_regions(&self, kind: ScanKind, regions: &Vec<MemoryRegion>) -> (r: Vec<GpuAllocation>)
        requires
            ranges_ordered(regions@),
        ensures
            alloc_views(r@) == scan(kind, region_views(regions@)),
    {
        let ghost rv = region_views(regions@);
        let mut out: Vec<GpuAllocation> = Vec::new();
        let mut i: usize = 0;
        while i < regions.len()
            invariant
                i <= regions@.len(),
                rv == region_views(regions@),
                ranges_ordered(regions@),
                alloc_views(out@) == scan(kind, rv.take(i as int)),
            decreases regions.len() - i,
        {
            let region = &regions[i];
            assert(region.start <= region.end);
            assert(rv.take(i + 1).drop_last() =~= rv.take(i as int));
            assert(rv.take(i + 1).last() == region@);
            let ghost before = out@;
            match kind {
                ScanKind::Uvm => {
                    if let Some(path) = &region.pathname {
                        let p = chars_of(path.as_str());
                        if contains(&p, "/dev/nvidia-uvm") {
                            let perms = chars_of(region.perms.as_str());
                            let shared = contains(&perms, "s");
                            out.push(make_allocation(region.start, region.end, AllocationType::Uvm, Some(path.clone()), region.perms.clone(), shared, false));
                        }
                        if starts_with(&p, "[anon:") && contains(&p, "cuda") {
                            out.push(make_allocation(region.start, region.end, AllocationType::Managed, None, region.perms.clone(), false, false));
                        }
                    }
                },
                ScanKind::Ipc => {
                    if let Some(a) = ipc_allocation_of(region) {
                        out.push(a);
                    }
                },
                ScanKind::Bar => {
                    if let Some(path) = &region.pathname {
                        let p = chars_of(path.as_str());
                        if contains(&p, "/sys/bus/pci/devices/") && contains(&p, ":00.0/resource") {
                            out.push(make_allocation(region.start, region.end, AllocationType::BarMapped, Some(path.clone()), region.perms.clone(), false, false));
                        }
                    }
                },
            }
            assert(alloc_views(out@) =~= alloc_views(before) + scan_of(kind, region@));
            i += 1;
        }
        assert(rv.take(rv.len() as int) =~= rv);
        out
    }

    /// UVM device mappings and CUDA managed memory, region by region.
    pub fn detect_uvm_allocations(&self, regions: &Vec<MemoryRegion>) -> (r: Vec<GpuAllocation>)
        requires
            ranges_ordered(regions@),
        ensures
            alloc_views(r@) == scan(ScanKind::Uvm, region_views(regions@)),
    {
        self.scan_regions(ScanKind::Uvm, regions)
    }

    /// CUDA and NCCL IPC shared memory, region by region.
    pub fn detect_ipc_allocations(&self, regions: &Vec<MemoryRegion>) -> (r: Vec<GpuAllocation>)
        requires
            ranges_ordered(regions@),
        ensures
            alloc_views(r@) == scan(ScanKind::Ipc, region_views(regions@)),
    {
        self.scan_regions(ScanKind::Ipc, regions)
    }

    /// PCIe BAR resource mappings, region by region.
    pub fn detect_bar_mappings(&self, regions: &Vec<MemoryRegion>) -> (r: Vec<GpuAllocation>)
        requires
            ranges_ordered(regions@),
        ensures
            alloc_views(r@) == scan(ScanKind::Bar, region_views(regions@)),
    {
        self.scan_regions(ScanKind::Bar, regions)
    }
    /// The NVML enrichment hook; it reports nothing in this version.
    fn check_nvidia_ml(&self, pid: u32) -> (r: Option<NvmlInfo>)
        ensures
            r is None,
    {
        None
    }

    /// The detection result for process `pid`, from its memory map, its NVIDIA
    /// descriptors and whether its environment marks it as a GPU process:
    /// the allocations of `detected`, added in order. It fails, with a
    /// `DetectionError`, exactly when their sizes do not fit a `u64` total or
    /// there are more of them than a `usize` counts.
    pub fn detect_in(
        &self,
        pid: u32,
        regions: &Vec<MemoryRegion>,
        gpu_fds: &Vec<GpuFdInfo>,
        gpu_environment: bool,
    ) -> (r: Result<DetectionResult, GpuCheckpointError>)
        requires
            ranges_ordered(regions@),
        ensures
            ({
                let found = detected(region_views(regions@), gpu_fds@.len() > 0, gpu_environment);
                match r {
                    Ok(d) => {
                        &&& d.wf()
                        &&& d.pid == pid
                        &&& d.vendor == GpuVendor::Nvidia
                        &&& alloc_views(d.allocations@) == found
                        &&& total_size(found) <= u64::MAX
                        &&& found.len() <= usize::MAX
                    },
                    Err(e) => {
                        &&& e is DetectionError
                        &&& (total_size(found) > u64::MAX || found.len() > usize::MAX)
                    },
                }
            }),
    {
        let mut result = DetectionResult::new(pid, GpuVendor::Nvidia);
        let ghost rv = region_views(regions@);
        if gpu_fds.len() == 0 && !gpu_environment {
            assert(alloc_views(result.allocations@) =~= Seq::<AllocationView>::empty());
            return Ok(result);
        }
        let mut found = self.detect_uvm_allocations(regions);
        let mut ipc = self.detect_ipc_allocations(regions);
        let mut bar = self.detect_bar_mappings(regions);
        let ghost (f0, f1, f2) = (found@, ipc@, bar@);
        found.append(&mut ipc);
        found.append(&mut bar);
        let ghost all = alloc_views(found@);
        assert(all =~= alloc_views(f0) + alloc_views(f1) + alloc_views(f2));
        assert(all == all_scans(rv));
        proof {
            lemma_scan_wf(ScanKind::Uvm, rv);
            lemma_scan_wf(ScanKind::Ipc, rv);
            lemma_scan_wf(ScanKind::Bar, rv);
            assert forall|i: int| 0 <= i < rv.len() implies (#[trigger] rv[i]).start <= rv[i].end by {
                assert(rv[i] == regions@[i]@);
            }
            assert forall|i: int| 0 <= i < all.len() implies (#[trigger] all[i]).wf() by {
                let a = scan(ScanKind::Uvm, rv);
                let b = scan(ScanKind::Ipc, rv);
                let c = scan(ScanKind::Bar, rv);
                if i < a.len() {
                    assert(all[i] == a[i]);
                } else if i < a.len() + b.len() {
                    assert(all[i] == b[i - a.len()]);
                } else {
                    assert(all[i] == c[i - a.len() - b.len()]);
                }
            }
        }
        let mut k: usize = 0;
        for a in it: found
            invariant
                it.seq() == found@,
                all == alloc_views(found@),
                all == detected(region_views(regions@), gpu_fds@.len() > 0, gpu_environment),
                forall|i: int| 0 <= i < all.len() ==> (#[trigger] all[i]).wf(),
                k == it.index(),
                result.wf(),
                result.pid == pid,
                result.vendor == GpuVendor::Nvidia,
                alloc_views(result.allocations@) == all.take(k as int),
        {
            assert(all[k as int] == a@);
            assert(all.take(k + 1) =~= all.take(k as int).push(a@));
            proof {
                lemma_count_type_le_len(alloc_views(result.allocations@), a.alloc_type);
            }
            assert(k < all.len());
            assert(result.allocations@.len() == k);
            if result.allocations.len() == usize::MAX {
                return Err(GpuCheckpointError::DetectionError("too many allocations to count".to_owned()));
            }
            match result.total_gpu_memory.checked_add(a.size) {
                Some(_) => {},
                None => {
                    proof {
                        let pre = all.take(k + 1);
                        assert(pre.drop_last() =~= all.take(k as int));
                        assert(pre.last() == a@);
                        assert(total_size(pre) == total_size(all.take(k as int)) + a.size);
                        lemma_total_size_prefix(all, k + 1);
                    }
                    return Err(GpuCheckpointError::DetectionError("allocation sizes overflow the total".to_owned()));
                },
            }
            result.add_allocation(a);
            k += 1;
        }
        assert(all.take(all.len() as int) =~= all);
        let _ = self.check_nvidia_ml(pid);
        Ok(result)
    }
}

/// What NVML would report for a process.
struct NvmlInfo {
    gpu_memory_used: u64,
    device_id: u32,
}

/// The descriptors of `fds` that classify as NVIDIA device, control or UVM
/// nodes, in order, as (fd, type, device ID, path).
pub open spec fn nvidia_fd_entries(fds: Seq<FileDescriptor>) -> Seq<
    (i32, GpuDeviceType, Option<u32>, Seq<char>),
>
    decreases fds.len(),
{
    if fds.len() == 0 {
        Seq::empty()
    } else {
        let rest = nvidia_fd_entries(fds.drop_last());
        let fd = fds.last();
        match spec_classify_target(fd.target@, nvidia_index_digits(fd.target@)) {
            Some(c) => if is_nvidia_type(c.0) {
                rest.push((fd.fd, c.0, c.1, fd.target@))
            } else {
                rest
            },
            None => rest,
        }
    }
}

/// The views of a sequence of descriptor classifications.
pub open spec fn fd_info_views(s: Seq<GpuFdInfo>) -> Seq<(i32, GpuDeviceType, Option<u32>, Seq<char>)> {
    s.map_values(|i: GpuFdInfo| (i.fd, i.device_type, i.device_id, i.path@))
}

impl NvidiaDetector {
    /// The classifications of the descriptors of `fds` that point at NVIDIA
    /// device, control or UVM nodes.
    pub fn nvidia_fds(fds: &Vec<FileDescriptor>) -> (r: Vec<GpuFdInfo>)
        ensures
            fd_info_views(r@) == nvidia_fd_entries(fds@),
    {
        let mut out: Vec<GpuFdInfo> = Vec::new();
        let mut i: usize = 0;
        while i < fds.len()
            invariant
                i <= fds@.len(),
                fd_info_views(out@) == nvidia_fd_entries(fds@.take(i as int)),
            decreases fds.len() - i,
        {
            assert(fds@.take(i + 1).drop_last() =~= fds@.take(i as int));
            assert(fds@.take(i + 1).last() == fds@[i as int]);
            let ghost before = out@;
            match ProcessScanner::classify_fd(&fds[i]) {
                Some(info) => {
                    if matches!(info.device_type, GpuDeviceType::NvidiaDevice | GpuDeviceType::NvidiaControl | GpuDeviceType::NvidiaUvm) {
                        out.push(info);
                        assert(fd_info_views(out@) =~= fd_info_views(before).push(
                            (out@.last().fd, out@.last().device_type, out@.last().device_id, out@.last().path@),
                        ));
                    }
                },
                None => {},
            }
            i += 1;
        }
        assert(fds@.take(fds@.len() as int) =~= fds@);
        out
    }
}

} // verus!
