//! The `/proc/<pid>/maps` line parser and the generic region classifier.
use vstd::prelude::*;

use crate::detector::types::{opt_chars, AllocationMetadata, AllocationType, AllocationView, GpuAllocation};
use crate::text::{
    chars_of, contains, find_char, has_infix, has_prefix, join_from, join_with, parse_unsigned,
    parse_unsigned_text, slice_chars, split_words, starts_with, string_of, words,
};

verus! {

/// One line of `/proc/<pid>/maps`.
#[derive(Debug)]
pub struct MemoryRegion {
    pub start: u64,
    pub end: u64,
    pub perms: String,
    pub offset: u64,
    pub dev: String,
    pub inode: u64,
    pub pathname: Option<String>,
}

/// A region as a mathematical value.
pub struct RegionView {
    pub start: u64,
    pub end: u64,
    pub perms: Seq<char>,
    pub offset: u64,
    pub dev: Seq<char>,
    pub inode: u64,
    pub pathname: Option<Seq<char>>,
}

impl View for MemoryRegion {
    type V = RegionView;

    open spec fn view(&self) -> RegionView {
        RegionView {
            start: self.start,
            end: self.end,
            perms: self.perms@,
            offset: self.offset,
            dev: self.dev@,
            inode: self.inode,
            pathname: opt_chars(self.pathname),
        }
    }
}

/// Large anonymous mappings from this size on may be CUDA memory.
pub const LARGE_ANONYMOUS_REGION: u64 = 64 * 1024 * 1024;

/// What a maps line describes: `<hex>-<hex> <perms> <hex offset> <dev>
/// <inode> [<pathname...>]`, whitespace-separated, with the pathname the
/// remaining fields joined by single spaces. A line that does not have this
/// shape, or whose range is empty, describes nothing.
pub open spec fn spec_parse_line(line: Seq<char>) -> Option<RegionView> {
    let parts = words(line);
    if parts.len() < 5 {
        None
    } else {
        let a = parts[0];
        let d = crate::text::first_index(a, '-');
        let start = parse_unsigned_text(a.take(d), 16, u64::MAX as int);
        let end = parse_unsigned_text(a.skip(d + 1), 16, u64::MAX as int);
        let offset = parse_unsigned_text(parts[2], 16, u64::MAX as int);
        let inode = parse_unsigned_text(parts[4], 10, u64::MAX as int);
        if crate::text::count_char(a, '-') != 1 || start is None || end is None || offset is None
            || inode is None || end->0 <= start->0 {
            None
        } else {
            Some(
                RegionView {
                    start: start->0 as u64,
                    end: end->0 as u64,
                    perms: parts[1],
                    offset: offset->0 as u64,
                    dev: parts[3],
                    inode: inode->0 as u64,
                    pathname: if parts.len() > 5 {
                        Some(join_with(parts.skip(5), ' '))
                    } else {
                        None
                    },
                },
            )
        }
    }
}

/// An allocation of `[start, end)` with the given type and metadata and no
/// device, descriptor or NUMA node.
pub open spec fn region_allocation(
    start: u64,
    end: u64,
    t: AllocationType,
    backing_file: Option<Seq<char>>,
    protection: Seq<char>,
    is_shared: bool,
    is_distributed: bool,
) -> AllocationView {
    AllocationView {
        vaddr_start: start,
        vaddr_end: end,
        size: (end - start) as u64,
        alloc_type: t,
        device_id: None,
        fd: None,
        is_distributed,
        numa_node: None,
        backing_file,
        protection,
        is_shared,
    }
}

/// Builds the allocation that `region_allocation` describes.
pub(crate) fn make_allocation(
    start: u64,
    end: u64,
    t: AllocationType,
    backing_file: Option<String>,
    protection: String,
    is_shared: bool,
    is_distributed: bool,
) -> (r: GpuAllocation)
    requires
        start <= end,
    ensures
        r@ == region_allocation(start, end, t, opt_chars(backing_file), protection@, is_shared, is_distributed),
        r.wf(),
{
    GpuAllocation {
        vaddr_start: start,
        vaddr_end: end,
        size: end - start,
        alloc_type: t,
        device_id: None,
        fd: None,
        metadata: AllocationMetadata {
            is_distributed,
            numa_node: None,
            backing_file,
            protection,
            is_shared,
        },
    }
}

/// Whether a shared-memory path names CUDA or NCCL IPC memory.
pub open spec fn is_ipc_path(p: Seq<char>) -> bool {
    has_prefix(p, "/dev/shm/"@) && (has_infix(p, "cuda"@) || has_infix(p, "nccl"@))
}

/// Whether an IPC path belongs to a distributed-training library.
pub open spec fn is_distributed_path(p: Seq<char>) -> bool {
    has_infix(p, "nccl"@) || has_infix(p, "horovod"@)
}

/// The allocation that an IPC region describes: `Distributed` for NCCL or
/// Horovod paths, else `Ipc`; always shared.
pub open spec fn ipc_allocation(r: RegionView, p: Seq<char>) -> AllocationView {
    let dist = is_distributed_path(p);
    region_allocation(
        r.start,
        r.end,
        if dist {
            AllocationType::Distributed
        } else {
            AllocationType::Ipc
        },
        Some(p),
        r.perms,
        true,
        dist,
    )
}

/// The first matching rule, in order: a UVM device path, another NVIDIA
/// device path, CUDA-tagged anonymous memory, CUDA or NCCL shared memory, a
/// PCIe BAR resource file, then a large heap or anonymous mapping.
pub open spec fn spec_classify_region(r: RegionView) -> Option<AllocationView> {
    match r.pathname {
        None => None,
        Some(p) => {
            let shared = has_infix(r.perms, "s"@);
            if has_infix(p, "/dev/nvidia-uvm"@) {
                Some(region_allocation(r.start, r.end, AllocationType::Uvm, Some(p), r.perms, shared, false))
            } else if has_prefix(p, "/dev/nvidia"@) {
                Some(region_allocation(r.start, r.end, AllocationType::Standard, Some(p), r.perms, shared, false))
            } else if has_prefix(p, "[anon:"@) && has_infix(p, "cuda"@) {
                Some(region_allocation(r.start, r.end, AllocationType::Managed, None, r.perms, false, false))
            } else if is_ipc_path(p) {
                Some(ipc_allocation(r, p))
            } else if has_infix(p, "/sys/bus/pci/devices/"@) && has_infix(p, "resource"@) {
                Some(region_allocation(r.start, r.end, AllocationType::BarMapped, Some(p), r.perms, false, false))
            } else if (p == "[heap]"@ || has_prefix(p, "[anon:"@)) && r.end - r.start >= LARGE_ANONYMOUS_REGION {
                Some(region_allocation(r.start, r.end, AllocationType::Unknown, None, r.perms, false, false))
            } else {
                None
            }
        },
    }
}

pub struct MemoryMapParser;

impl MemoryMapParser {
    /// Parses one maps line; a malformed line gives `None`.
    pub fn parse_line(line: &str) -> (r: Option<MemoryRegion>)
        ensures
            match r {
                Some(m) => spec_parse_line(line@) == Some(m@) && m.start < m.end,
                None => spec_parse_line(line@) is None,
            },
    {
        let cs = chars_of(line);
        let parts = split_words(&cs);
        let ghost ws = words(line@);
        if parts.len() < 5 {
            return None;
        }
        let a = &parts[0];
        assert(a@ == ws[0]);
        let (count, dash) = find_char(a, '-');
        if count != 1 {
            return None;
        }
        let d = match dash {
            Some(k) => k,
            None => return None,
        };
        let lo = slice_chars(a, 0, d);
        let hi = slice_chars(a, d + 1, a.len());
        assert(lo@ =~= ws[0].take(d as int));
        assert(hi@ =~= ws[0].skip(d + 1));
        assert(parts@[2]@ == ws[2]);
        assert(parts@[4]@ == ws[4]);
        assert(parts@[1]@ == ws[1]);
        assert(parts@[3]@ == ws[3]);
        let start = match parse_unsigned(&lo, 16, u64::MAX) {
            Some(v) => v,
            None => return None,
        };
        let end = match parse_unsigned(&hi, 16, u64::MAX) {
            Some(v) => v,
            None => return None,
        };
        let offset = match parse_unsigned(&parts[2], 16, u64::MAX) {
            Some(v) => v,
            None => return None,
        };
        let inode = match parse_unsigned(&parts[4], 10, u64::MAX) {
            Some(v) => v,
            None => return None,
        };
        if end <= start {
            return None;
        }
        let pathname = if parts.len() > 5 {
            let joined = join_from(&parts, 5, ' ');
            assert(parts@.subrange(5, parts@.len() as int).map_values(|w: Vec<char>| w@) =~= ws.skip(5));
            Some(string_of(&joined))
        } else {
            None
        };
        Some(
            MemoryRegion {
                start,
                end,
                perms: string_of(&parts[1]),
                offset,
                dev: string_of(&parts[3]),
                inode,
                pathname,
            },
        )
    }

    /// The allocation that `region` backs, by the first rule of
    /// `spec_classify_region` that matches its path.
    pub fn classify_region(region: &MemoryRegion) -> (r: Option<GpuAllocation>)
        requires
            region.start <= region.end,
        ensures
            match r {
                Some(a) => spec_classify_region(region@) == Some(a@) && a.wf(),
                None => spec_classify_region(region@) is None,
            },
    {
        let path = match &region.pathname {
            Some(p) => p,
            None => return None,
        };
        let p = chars_of(path.as_str());
        let perms = chars_of(region.perms.as_str());
        let shared = contains(&perms, "s");
        if contains(&p, "/dev/nvidia-uvm") {
            return Some(make_allocation(region.start, region.end, AllocationType::Uvm, Some(path.clone()), region.perms.clone(), shared, false));
        }
        if starts_with(&p, "/dev/nvidia") {
            return Some(make_allocation(region.start, region.end, AllocationType::Standard, Some(path.clone()), region.perms.clone(), shared, false));
        }
        let anon = starts_with(&p, "[anon:");
        if anon && contains(&p, "cuda") {
            return Some(make_allocation(region.start, region.end, AllocationType::Managed, None, region.perms.clone(), false, false));
        }
        if let Some(a) = ipc_allocation_of(region) {
            return Some(a);
        }
        if contains(&p, "/sys/bus/pci/devices/") && contains(&p, "resource") {
            return Some(make_allocation(region.start, region.end, AllocationType::BarMapped, Some(path.clone()), region.perms.clone(), false, false));
        }
        let heap = "[heap]".to_owned();
        if (*path == heap || anon) && region.end - region.start >= LARGE_ANONYMOUS_REGION {
            return Some(make_allocation(region.start, region.end, AllocationType::Unknown, None, region.perms.clone(), false, false));
        }
        None
    }
}

/// The IPC or distributed allocation of a CUDA or NCCL shared-memory region.
pub(crate) fn ipc_allocation_of(region: &MemoryRegion) -> (r: Option<GpuAllocation>)
    requires
        region.start <= region.end,
    ensures
        match r {
            Some(a) => region@.pathname matches Some(p) && is_ipc_path(p) && a@ == ipc_allocation(region@, p) && a.wf(),
            None => !(region@.pathname matches Some(p) && is_ipc_path(p)),
        },
{
    let path = match &region.pathname {
        Some(p) => p,
        None => return None,
    };
    let p = chars_of(path.as_str());
    if starts_with(&p, "/dev/shm/") && (contains(&p, "cuda") || contains(&p, "nccl")) {
        let dist = contains(&p, "nccl") || contains(&p, "horovod");
        let t = if dist {
            AllocationType::Distributed
        } else {
            AllocationType::Ipc
        };
        Some(make_allocation(region.start, region.end, t, Some(path.clone()), region.perms.clone(), true, dist))
    } else {
        None
    }
}

/// The regions that the lines of a maps file describe, in order; lines that
/// describe none are skipped.
pub open spec fn spec_parse_lines(lines: Seq<Seq<char>>) -> Seq<RegionView>
    decreases lines.len(),
{
    if lines.len() == 0 {
        Seq::empty()
    } else {
        let rest = spec_parse_lines(lines.drop_last());
        match spec_parse_line(lines.last()) {
            Some(r) => rest.push(r),
            None => rest,
        }
    }
}

impl MemoryMapParser {
    /// The regions of a maps file given as its lines.
    pub fn parse_lines(lines: &Vec<String>) -> (r: Vec<MemoryRegion>)
        ensures
            r@.map_values(|m: MemoryRegion| m@) == spec_parse_lines(lines@.map_values(|l: String| l@)),
            forall|i: int| 0 <= i < r@.len() ==> (#[trigger] r@[i]).start < r@[i].end,
    {
        let ghost ls = lines@.map_values(|l: String| l@);
        let mut out: Vec<MemoryRegion> = Vec::new();
        let mut i: usize = 0;
        while i < lines.len()
            invariant
                i <= lines@.len(),
                ls == lines@.map_values(|l: String| l@),
                out@.map_values(|m: MemoryRegion| m@) == spec_parse_lines(ls.take(i as int)),
                forall|k: int| 0 <= k < out@.len() ==> (#[trigger] out@[k]).start < out@[k].end,
            decreases lines.len() - i,
        {
            assert(ls.take(i + 1).drop_last() =~= ls.take(i as int));
            assert(ls.take(i + 1).last() == lines@[i as int]@);
            let ghost before = out@;
            match Self::parse_line(lines[i].as_str()) {
                Some(m) => {
                    out.push(m);
                    assert(out@.map_values(|m: MemoryRegion| m@) =~= before.map_values(|m: MemoryRegion| m@).push(out@.last()@));
                },
                None => {},
            }
            i += 1;
        }
        assert(ls.take(ls.len() as int) =~= ls);
        out
    }
}

} // verus!
