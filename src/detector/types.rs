//! The detection data model: allocations, their classification, and the
//! per-process detection result with its running statistics.
use vstd::prelude::*;

verus! {

/// Whole seconds since the Unix epoch according to the system clock.
///
/// Relies on `SystemTime::now`; a clock set before the epoch reads as 0.
/// Nothing is promised of the value: it is the time.
#[verifier::external_body]
pub(crate) fn unix_now() -> u64 {
    std::time::SystemTime::now().duration_since(std::time::UNIX_EPOCH).map(|d| d.as_secs()).unwrap_or(0)
}

#[derive(Debug, Clone, Copy, PartialEq, Eq, Structural)]
pub enum GpuVendor {
    Nvidia,
    Amd,
    Intel,
    Unknown,
}

impl GpuVendor {
    /// The vendor's display name.
    pub open spec fn spec_name(self) -> Seq<char> {
        match self {
            GpuVendor::Nvidia => "NVIDIA"@,
            GpuVendor::Amd => "AMD"@,
            GpuVendor::Intel => "Intel"@,
            GpuVendor::Unknown => "Unknown"@,
        }
    }

    /// The vendor's display name (`NVIDIA`, `AMD`, `Intel`, `Unknown`).
    pub fn name(&self) -> (r: String)
        ensures
            r@ == self.spec_name(),
    {
        match self {
            GpuVendor::Nvidia => "NVIDIA".to_owned(),
            GpuVendor::Amd => "AMD".to_owned(),
            GpuVendor::Intel => "Intel".to_owned(),
            GpuVendor::Unknown => "Unknown".to_owned(),
        }
    }
}

#[derive(Debug, Clone, Copy, PartialEq, Eq, Structural)]
pub enum AllocationType {
    /// Standard GPU memory allocation (cudaMalloc).
    Standard,
    /// Unified Virtual Memory allocation.
    Uvm,
    /// Managed memory (cudaMallocManaged).
    Managed,
    /// IPC shared memory.
    Ipc,
    /// Distributed training allocation (NCCL and the like).
    Distributed,
    /// Memory-mapped PCIe BAR region.
    BarMapped,
    /// Host-pinned memory.
    HostPinned,
    /// Unknown allocation type.
    Unknown,
}

impl AllocationType {
    /// The allocation types that the vendor fast path cannot checkpoint.
    pub open spec fn spec_is_problematic(self) -> bool {
        self is Uvm || self is Managed || self is Ipc || self is Distributed
    }

    /// The type's display name.
    pub open spec fn spec_name(self) -> Seq<char> {
        match self {
            AllocationType::Standard => "Standard"@,
            AllocationType::Uvm => "UVM"@,
            AllocationType::Managed => "Managed"@,
            AllocationType::Ipc => "IPC"@,
            AllocationType::Distributed => "Distributed"@,
            AllocationType::BarMapped => "BAR-Mapped"@,
            AllocationType::HostPinned => "Host-Pinned"@,
            AllocationType::Unknown => "Unknown"@,
        }
    }

    /// The type's display name (`Standard`, `UVM`, `BAR-Mapped`, ...).
    pub fn name(&self) -> (r: String)
        ensures
            r@ == self.spec_name(),
    {
        match self {
            AllocationType::Standard => "Standard".to_owned(),
            AllocationType::Uvm => "UVM".to_owned(),
            AllocationType::Managed => "Managed".to_owned(),
            AllocationType::Ipc => "IPC".to_owned(),
            AllocationType::Distributed => "Distributed".to_owned(),
            AllocationType::BarMapped => "BAR-Mapped".to_owned(),
            AllocationType::HostPinned => "Host-Pinned".to_owned(),
            AllocationType::Unknown => "Unknown".to_owned(),
        }
    }
}

#[derive(Debug)]
pub struct AllocationMetadata {
    /// Whether the allocation is part of a distributed setup.
    pub is_distributed: bool,
    /// NUMA node, if applicable.
    pub numa_node: Option<u32>,
    /// Backing file path, if memory-mapped.
    pub backing_file: Option<String>,
    /// Memory protection flags, as in the maps file (`rw-s`).
    pub protection: String,
    /// Whether the mapping is shared.
    pub is_shared: bool,
}

impl Default for AllocationMetadata {
    fn default() -> (r: Self)
        ensures
            !r.is_distributed,
            r.numa_node is None,
            r.backing_file is None,
            r.protection@ == Seq::<char>::empty(),
            !r.is_shared,
    {
        AllocationMetadata {
            is_distributed: false,
            numa_node: None,
            backing_file: None,
            protection: String::new(),
            is_shared: false,
        }
    }
}

#[derive(Debug)]
pub struct GpuAllocation {
    /// Virtual address range start.
    pub vaddr_start: u64,
    /// Virtual address range end (exclusive).
    pub vaddr_end: u64,
    /// Size in bytes.
    pub size: u64,
    /// Allocation type.
    pub alloc_type: AllocationType,
    /// GPU device ID.
    pub device_id: Option<u32>,
    /// File descriptor, if memory-mapped.
    pub fd: Option<i32>,
    /// Additional metadata.
    pub metadata: AllocationMetadata,
}

/// An allocation as a mathematical value: its fields, with strings as
/// character sequences.
pub struct AllocationView {
    pub vaddr_start: u64,
    pub vaddr_end: u64,
    pub size: u64,
    pub alloc_type: AllocationType,
    pub device_id: Option<u32>,
    pub fd: Option<i32>,
    pub is_distributed: bool,
    pub numa_node: Option<u32>,
    pub backing_file: Option<Seq<char>>,
    pub protection: Seq<char>,
    pub is_shared: bool,
}

/// The character sequence of an optional string.
pub open spec fn opt_chars(s: Option<String>) -> Option<Seq<char>> {
    match s {
        Some(t) => Some(t@),
        None => None,
    }
}

impl View for GpuAllocation {
    type V = AllocationView;

    open spec fn view(&self) -> AllocationView {
        AllocationView {
            vaddr_start: self.vaddr_start,
            vaddr_end: self.vaddr_end,
            size: self.size,
            alloc_type: self.alloc_type,
            device_id: self.device_id,
            fd: self.fd,
            is_distributed: self.metadata.is_distributed,
            numa_node: self.metadata.numa_node,
            backing_file: opt_chars(self.metadata.backing_file),
            protection: self.metadata.protection@,
            is_shared: self.metadata.is_shared,
        }
    }
}

impl AllocationView {
    /// The size is the extent of the address range.
    pub open spec fn wf(self) -> bool {
        self.vaddr_start <= self.vaddr_end && self.size == self.vaddr_end - self.vaddr_start
    }
}

impl GpuAllocation {
    /// The size is the extent of the address range.
    pub open spec fn wf(&self) -> bool {
        self@.wf()
    }

    /// A fresh allocation of `[start, end)` with default metadata.
    pub fn new(start: u64, end: u64, alloc_type: AllocationType) -> (r: Self)
        requires
            start <= end,
        ensures
            r.vaddr_start == start,
            r.vaddr_end == end,
            r.size == end - start,
            r.alloc_type == alloc_type,
            r.device_id is None,
            r.fd is None,
            !r.metadata.is_distributed,
            r.metadata.numa_node is None,
            r.metadata.backing_file is None,
            r.metadata.protection@ == Seq::<char>::empty(),
            !r.metadata.is_shared,
            r.wf(),
    {
        GpuAllocation {
            vaddr_start: start,
            vaddr_end: end,
            size: end - start,
            alloc_type,
            device_id: None,
            fd: None,
            metadata: AllocationMetadata::default(),
        }
    }

    /// Whether the vendor fast path cannot checkpoint this allocation.
    pub fn is_problematic(&self) -> (r: bool)
        ensures
            r == self.alloc_type.spec_is_problematic(),
            r <==> (self.alloc_type == AllocationType::Uvm || self.alloc_type
                == AllocationType::Managed || self.alloc_type == AllocationType::Ipc
                || self.alloc_type == AllocationType::Distributed),
    {
        match self.alloc_type {
            AllocationType::Uvm
            | AllocationType::Managed
            | AllocationType::Ipc
            | AllocationType::Distributed => true,
            _ => false,
        }
    }
}

#[derive(Debug)]
pub struct DetectionStats {
    pub standard_allocations: usize,
    pub uvm_allocations: usize,
    pub managed_allocations: usize,
    pub ipc_allocations: usize,
    pub distributed_allocations: usize,
    pub total_size: u64,
    pub largest_allocation: u64,
}

impl Default for DetectionStats {
    fn default() -> (r: Self)
        ensures
            r.standard_allocations == 0,
            r.uvm_allocations == 0,
            r.managed_allocations == 0,
            r.ipc_allocations == 0,
            r.distributed_allocations == 0,
            r.total_size == 0,
            r.largest_allocation == 0,
    {
        DetectionStats {
            standard_allocations: 0,
            uvm_allocations: 0,
            managed_allocations: 0,
            ipc_allocations: 0,
            distributed_allocations: 0,
            total_size: 0,
            largest_allocation: 0,
        }
    }
}

impl DetectionStats {
    /// The counter kept for allocations of type `t`; types without a counter
    /// read as 0.
    pub open spec fn count_for(&self, t: AllocationType) -> int {
        match t {
            AllocationType::Standard => self.standard_allocations as int,
            AllocationType::Uvm => self.uvm_allocations as int,
            AllocationType::Managed => self.managed_allocations as int,
            AllocationType::Ipc => self.ipc_allocations as int,
            AllocationType::Distributed => self.distributed_allocations as int,
            _ => 0,
        }
    }
}

/// Whether the statistics keep a counter for allocations of type `t`.
pub open spec fn is_counted(t: AllocationType) -> bool {
    t is Standard || t is Uvm || t is Managed || t is Ipc || t is Distributed
}

/// The views of a sequence of allocations.
pub open spec fn alloc_views(s: Seq<GpuAllocation>) -> Seq<AllocationView> {
    s.map_values(|a: GpuAllocation| a@)
}

/// The sum of the sizes of `s`.
pub open spec fn total_size(s: Seq<AllocationView>) -> int
    decreases s.len(),
{
    if s.len() == 0 {
        0
    } else {
        total_size(s.drop_last()) + s.last().size
    }
}

/// The largest size in `s`, or 0 when `s` is empty.
pub open spec fn largest_size(s: Seq<AllocationView>) -> int
    decreases s.len(),
{
    if s.len() == 0 {
        0
    } else {
        let m = largest_size(s.drop_last());
        if s.last().size > m {
            s.last().size as int
        } else {
            m
        }
    }
}

/// How many allocations of `s` have type `t`.
pub open spec fn count_type(s: Seq<AllocationView>, t: AllocationType) -> int
    decreases s.len(),
{
    if s.len() == 0 {
        0
    } else {
        count_type(s.drop_last(), t) + if s.last().alloc_type == t {
            1int
        } else {
            0
        }
    }
}

#[derive(Debug)]
pub struct DetectionResult {
    /// Process ID.
    pub pid: u32,
    /// GPU vendor.
    pub vendor: GpuVendor,
    /// All detected allocations, in the order they were added.
    pub allocations: Vec<GpuAllocation>,
    /// Total GPU memory used: the sum of the allocation sizes.
    pub total_gpu_memory: u64,
    /// Detection time, in whole seconds since the Unix epoch.
    pub timestamp: u64,
    /// Summary statistics.
    pub stats: DetectionStats,
}

impl DetectionResult {
    /// The totals and statistics agree with the allocations, and each
    /// allocation's size is the extent of its range.
    pub open spec fn wf(&self) -> bool {
        let s = alloc_views(self.allocations@);
        &&& self.total_gpu_memory == total_size(s)
        &&& self.stats.total_size == total_size(s)
        &&& self.stats.largest_allocation == largest_size(s)
        &&& forall|t: AllocationType| is_counted(t) ==> #[trigger] self.stats.count_for(t) == count_type(s, t)
        &&& forall|i: int| 0 <= i < s.len() ==> #[trigger] s[i].wf()
    }

    /// An empty result for process `pid` and `vendor`, stamped with the time now.
    pub fn new(pid: u32, vendor: GpuVendor) -> (r: Self)
        ensures
            r.pid == pid,
            r.vendor == vendor,
            r.allocations@.len() == 0,
            r.total_gpu_memory == 0,
            r.stats.total_size == 0,
            r.stats.largest_allocation == 0,
            forall|t: AllocationType| #[trigger] r.stats.count_for(t) == 0,
            r.wf(),
    {
        DetectionResult {
            pid,
            vendor,
            allocations: Vec::new(),
            total_gpu_memory: 0,
            timestamp: unix_now(),
            stats: DetectionStats::default(),
        }
    }

    /// Appends `allocation`, updating the total and the statistics with it.
    pub fn add_allocation(&mut self, allocation: GpuAllocation)
        requires
            old(self).total_gpu_memory + allocation.size <= u64::MAX,
            old(self).stats.total_size + allocation.size <= u64::MAX,
            old(self).stats.count_for(allocation.alloc_type) < usize::MAX,
        ensures
            final(self).allocations@ == old(self).allocations@.push(allocation),
            final(self).pid == old(self).pid,
            final(self).vendor == old(self).vendor,
            final(self).timestamp == old(self).timestamp,
            final(self).total_gpu_memory == old(self).total_gpu_memory + allocation.size,
            final(self).stats.total_size == old(self).stats.total_size + allocation.size,
            final(self).stats.largest_allocation == if allocation.size
                > old(self).stats.largest_allocation {
                allocation.size
            } else {
                old(self).stats.largest_allocation
            },
            forall|t: AllocationType| #[trigger]
                final(self).stats.count_for(t) == old(self).stats.count_for(t) + if t
                    == allocation.alloc_type && is_counted(t) {
                    1int
                } else {
                    0
                },
            old(self).wf() && allocation.wf() ==> final(self).wf(),
    {
        let ghost before = self.allocations@;
        self.total_gpu_memory = self.total_gpu_memory + allocation.size;
        self.stats.total_size = self.stats.total_size + allocation.size;
        if allocation.size > self.stats.largest_allocation {
            self.stats.largest_allocation = allocation.size;
        }
        match allocation.alloc_type {
            AllocationType::Standard => self.stats.standard_allocations += 1,
            AllocationType::Uvm => self.stats.uvm_allocations += 1,
            AllocationType::Managed => self.stats.managed_allocations += 1,
            AllocationType::Ipc => self.stats.ipc_allocations += 1,
            AllocationType::Distributed => self.stats.distributed_allocations += 1,
            _ => {},
        }
        let ghost a = allocation;
        self.allocations.push(allocation);
        proof {
            let s = alloc_views(self.allocations@);
            assert(self.allocations@.drop_last() =~= before);
            assert(s =~= alloc_views(before).push(a@));
            assert(s.drop_last() =~= alloc_views(before));
            assert(s.last() == a@);
            assert(total_size(s) == total_size(alloc_views(before)) + a.size);
            assert forall|t: AllocationType| is_counted(t) implies #[trigger] count_type(s, t)
                == count_type(alloc_views(before), t) + if a.alloc_type == t {
                1int
            } else {
                0
            } by {}
            if old(self).wf() && a.wf() {
                assert forall|i: int| 0 <= i < s.len() implies #[trigger] s[i].wf() by {
                    if i < before.len() {
                        assert(s[i] == alloc_views(before)[i]);
                    }
                }
                assert(self.total_gpu_memory == total_size(s));
                assert(self.stats.total_size == total_size(s));
                assert(self.stats.largest_allocation == largest_size(s));
                assert forall|t: AllocationType| is_counted(t) implies #[trigger] self.stats.count_for(t) == count_type(s, t) by {
                    assert(old(self).stats.count_for(t) == count_type(alloc_views(before), t));
                }
            }
        }
    }

    /// Whether any allocation is problematic.
    pub fn has_problematic_allocations(&self) -> (r: bool)
        ensures
            r == exists|i: int|
                0 <= i < self.allocations@.len()
                    && (#[trigger] self.allocations@[i]).alloc_type.spec_is_problematic(),
    {
        let mut i: usize = 0;
        while i < self.allocations.len()
            invariant
                i <= self.allocations@.len(),
                forall|j: int| 0 <= j < i ==> !(#[trigger] self.allocations@[j]).alloc_type.spec_is_problematic(),
            decreases self.allocations.len() - i,
        {
            if self.allocations[i].is_problematic() {
                return true;
            }
            i += 1;
        }
        false
    }
}

/// No type occurs more often than the sequence is long.
pub proof fn lemma_count_type_le_len(s: Seq<AllocationView>, t: AllocationType)
    ensures
        0 <= count_type(s, t) <= s.len(),
    decreases s.len(),
{
    if s.len() > 0 {
        lemma_count_type_le_len(s.drop_last(), t);
    }
}

/// A prefix's sizes never sum to more than the whole's.
pub proof fn lemma_total_size_prefix(s: Seq<AllocationView>, k: int)
    requires
        0 <= k <= s.len(),
    ensures
        0 <= total_size(s.take(k)) <= total_size(s),
    decreases s.len(),
{
    if k < s.len() {
        assert(s.drop_last().take(k) =~= s.take(k));
        lemma_total_size_prefix(s.drop_last(), k);
    } else {
        assert(s.take(k) =~= s);
        if s.len() > 0 {
            lemma_total_size_prefix(s.drop_last(), s.len() - 1);
        }
    }
}

/// Appending an allocation adds its size to the total, raises the largest
/// size to it when it is larger, and counts it once under its own type.
pub proof fn lemma_append_allocation(s: Seq<AllocationView>, a: AllocationView)
    ensures
        total_size(s.push(a)) == total_size(s) + a.size,
        largest_size(s.push(a)) == if a.size > largest_size(s) {
            a.size as int
        } else {
            largest_size(s)
        },
        forall|t: AllocationType| #[trigger] count_type(s.push(a), t) == count_type(s, t) + if a.alloc_type == t {
            1int
        } else {
            0
        },
{
    assert(s.push(a).drop_last() =~= s);
}

} // verus!
