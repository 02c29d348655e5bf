//! The BAR-sliding checkpoint file format and writer.
//!
//! A checkpoint file is a `CheckpointHeader` followed, for each allocation
//! in detection order, by an `AllocationHeader` and exactly `size` payload
//! bytes; all integers are little-endian, with no padding, trailer or index.
use vstd::prelude::*;

use vstd::bytes::{
    lemma_auto_spec_u32_to_from_le_bytes, lemma_auto_spec_u64_to_from_le_bytes,
    spec_u32_to_le_bytes, spec_u64_to_le_bytes, u32_from_le_bytes, u32_to_le_bytes,
    u64_from_le_bytes, u64_to_le_bytes,
};
use vstd::slice::slice_subrange;

use crate::detector::types::{alloc_views, total_size, unix_now, GpuAllocation};
use crate::detector::DetectionResult;
use crate::GpuCheckpointError;

verus! {

/// Default BAR window: 256 MiB.
pub const BAR_WINDOW_SIZE: usize = 268435456;

/// The file magic, `GPUC`.
pub const CHECKPOINT_MAGIC: u32 = 0x47505543;

/// The file format version.
pub const CHECKPOINT_VERSION: u32 = 1;

/// Bytes in a `CheckpointHeader` on disk.
pub const HEADER_SIZE: usize = 32;

/// More steps than a writer or reader spends on one allocation: its
/// header, its opening, and at most one step per payload byte.
pub const STEP_SPAN: u128 = 0x1_0000_0000_0000_0003;

/// Bytes in an `AllocationHeader` on disk.
pub const ALLOCATION_HEADER_SIZE: usize = 32;

#[derive(Debug, Clone, Copy, PartialEq, Eq, Structural)]
pub struct CheckpointHeader {
    pub magic: u32,
    pub version: u32,
    pub pid: u32,
    pub num_allocations: u32,
    pub total_size: u64,
    pub timestamp: u64,
}

#[derive(Debug, Clone, Copy, PartialEq, Eq, Structural)]
pub struct AllocationHeader {
    pub vaddr_start: u64,
    pub vaddr_end: u64,
    pub size: u64,
    pub device_id: u32,
    pub flags: u32,
}

impl CheckpointHeader {
    /// The header's on-disk bytes.
    pub open spec fn spec_bytes(&self) -> Seq<u8> {
        spec_u32_to_le_bytes(self.magic) + spec_u32_to_le_bytes(self.version)
            + spec_u32_to_le_bytes(self.pid) + spec_u32_to_le_bytes(self.num_allocations)
            + spec_u64_to_le_bytes(self.total_size) + spec_u64_to_le_bytes(self.timestamp)
    }

    /// Encodes the header as its 32 on-disk bytes.
    pub fn to_bytes(&self) -> (r: Vec<u8>)
        ensures
            r@ == self.spec_bytes(),
            r@.len() == HEADER_SIZE,
    {
        proof {
            lemma_auto_spec_u32_to_from_le_bytes();
            lemma_auto_spec_u64_to_from_le_bytes();
        }
        let mut out = u32_to_le_bytes(self.magic);
        let mut b = u32_to_le_bytes(self.version);
        out.append(&mut b);
        let mut b = u32_to_le_bytes(self.pid);
        out.append(&mut b);
        let mut b = u32_to_le_bytes(self.num_allocations);
        out.append(&mut b);
        let mut b = u64_to_le_bytes(self.total_size);
        out.append(&mut b);
        let mut b = u64_to_le_bytes(self.timestamp);
        out.append(&mut b);
        out
    }

    /// The header whose on-disk bytes are `b`.
    pub open spec fn spec_from_bytes(b: Seq<u8>) -> Self {
        choose|h: Self| h.spec_bytes() == b
    }

    /// A header decoded from `b` is the one `spec_from_bytes` names.
    pub proof fn lemma_spec_from_bytes(b: Seq<u8>, h: Self)
        requires
            h.spec_bytes() == b,
        ensures
            Self::spec_from_bytes(b) == h,
    {
        let g = Self::spec_from_bytes(b);
        lemma_header_bytes_injective(g, h);
    }

    /// Decodes a header from its 32 on-disk bytes.
    pub fn from_bytes(b: &[u8]) -> (r: Self)
        requires
            b@.len() == HEADER_SIZE,
        ensures
            r.spec_bytes() == b@,
    {
        proof {
            lemma_auto_spec_u32_to_from_le_bytes();
            lemma_auto_spec_u64_to_from_le_bytes();
        }
        let r = CheckpointHeader {
            magic: u32_from_le_bytes(slice_subrange(b, 0, 4)),
            version: u32_from_le_bytes(slice_subrange(b, 4, 8)),
            pid: u32_from_le_bytes(slice_subrange(b, 8, 12)),
            num_allocations: u32_from_le_bytes(slice_subrange(b, 12, 16)),
            total_size: u64_from_le_bytes(slice_subrange(b, 16, 24)),
            timestamp: u64_from_le_bytes(slice_subrange(b, 24, 32)),
        };
        assert(r.spec_bytes() =~= b@);
        r
    }
}

impl AllocationHeader {
    /// The header's on-disk bytes.
    pub open spec fn spec_bytes(&self) -> Seq<u8> {
        spec_u64_to_le_bytes(self.vaddr_start) + spec_u64_to_le_bytes(self.vaddr_end)
            + spec_u64_to_le_bytes(self.size) + spec_u32_to_le_bytes(self.device_id)
            + spec_u32_to_le_bytes(self.flags)
    }

    /// The header recorded for `a`: its range and size, its device (0 when
    /// unknown), and no flags.
    pub fn from_allocation(a: &GpuAllocation) -> (r: Self)
        ensures
            r.vaddr_start == a.vaddr_start,
            r.vaddr_end == a.vaddr_end,
            r.size == a.size,
            r.device_id == match a.device_id {
                Some(d) => d,
                None => 0,
            },
            r.flags == 0,
    {
        AllocationHeader {
            vaddr_start: a.vaddr_start,
            vaddr_end: a.vaddr_end,
            size: a.size,
            device_id: match a.device_id {
                Some(d) => d,
                None => 0,
            },
            flags: 0,
        }
    }

    /// Encodes the header as its 32 on-disk bytes.
    pub fn to_bytes(&self) -> (r: Vec<u8>)
        ensures
            r@ == self.spec_bytes(),
            r@.len() == ALLOCATION_HEADER_SIZE,
    {
        proof {
            lemma_auto_spec_u32_to_from_le_bytes();
            lemma_auto_spec_u64_to_from_le_bytes();
        }
        let mut out = u64_to_le_bytes(self.vaddr_start);
        let mut b = u64_to_le_bytes(self.vaddr_end);
        out.append(&mut b);
        let mut b = u64_to_le_bytes(self.size);
        out.append(&mut b);
        let mut b = u32_to_le_bytes(self.device_id);
        out.append(&mut b);
        let mut b = u32_to_le_bytes(self.flags);
        out.append(&mut b);
        out
    }

    /// The header whose on-disk bytes are `b`.
    pub open spec fn spec_from_bytes(b: Seq<u8>) -> Self {
        choose|h: Self| h.spec_bytes() == b
    }

    /// A header decoded from `b` is the one `spec_from_bytes` names.
    pub proof fn lemma_spec_from_bytes(b: Seq<u8>, h: Self)
        requires
            h.spec_bytes() == b,
        ensures
            Self::spec_from_bytes(b) == h,
    {
        let g = Self::spec_from_bytes(b);
        lemma_allocation_header_bytes_injective(g, h);
    }

    /// Decodes a header from its 32 on-disk bytes.
    pub fn from_bytes(b: &[u8]) -> (r: Self)
        requires
            b@.len() == ALLOCATION_HEADER_SIZE,
        ensures
            r.spec_bytes() == b@,
    {
        proof {
            lemma_auto_spec_u32_to_from_le_bytes();
            lemma_auto_spec_u64_to_from_le_bytes();
        }
        let r = AllocationHeader {
            vaddr_start: u64_from_le_bytes(slice_subrange(b, 0, 8)),
            vaddr_end: u64_from_le_bytes(slice_subrange(b, 8, 16)),
            size: u64_from_le_bytes(slice_subrange(b, 16, 24)),
            device_id: u32_from_le_bytes(slice_subrange(b, 24, 28)),
            flags: u32_from_le_bytes(slice_subrange(b, 28, 32)),
        };
        assert(r.spec_bytes() =~= b@);
        r
    }
}

/// Two allocation headers with the same bytes are the same header.
pub proof fn lemma_allocation_header_bytes_injective(h1: AllocationHeader, h2: AllocationHeader)
    requires
        h1.spec_bytes() == h2.spec_bytes(),
    ensures
        h1 == h2,
{
    lemma_auto_spec_u32_to_from_le_bytes();
    lemma_auto_spec_u64_to_from_le_bytes();
    let b = h1.spec_bytes();
    let c = h2.spec_bytes();
    assert(b.subrange(0, 8) =~= spec_u64_to_le_bytes(h1.vaddr_start));
    assert(c.subrange(0, 8) =~= spec_u64_to_le_bytes(h2.vaddr_start));
    assert(b.subrange(8, 16) =~= spec_u64_to_le_bytes(h1.vaddr_end));
    assert(c.subrange(8, 16) =~= spec_u64_to_le_bytes(h2.vaddr_end));
    assert(b.subrange(16, 24) =~= spec_u64_to_le_bytes(h1.size));
    assert(c.subrange(16, 24) =~= spec_u64_to_le_bytes(h2.size));
    assert(b.subrange(24, 28) =~= spec_u32_to_le_bytes(h1.device_id));
    assert(c.subrange(24, 28) =~= spec_u32_to_le_bytes(h2.device_id));
    assert(b.subrange(28, 32) =~= spec_u32_to_le_bytes(h1.flags));
    assert(c.subrange(28, 32) =~= spec_u32_to_le_bytes(h2.flags));
}

/// Two file headers with the same bytes are the same header.
pub proof fn lemma_header_bytes_injective(h1: CheckpointHeader, h2: CheckpointHeader)
    requires
        h1.spec_bytes() == h2.spec_bytes(),
    ensures
        h1 == h2,
{
    lemma_auto_spec_u32_to_from_le_bytes();
    lemma_auto_spec_u64_to_from_le_bytes();
    let b = h1.spec_bytes();
    assert(b.subrange(0, 4) =~= spec_u32_to_le_bytes(h1.magic));
    assert(h2.spec_bytes().subrange(0, 4) =~= spec_u32_to_le_bytes(h2.magic));
    assert(b.subrange(4, 8) =~= spec_u32_to_le_bytes(h1.version));
    assert(h2.spec_bytes().subrange(4, 8) =~= spec_u32_to_le_bytes(h2.version));
    assert(b.subrange(8, 12) =~= spec_u32_to_le_bytes(h1.pid));
    assert(h2.spec_bytes().subrange(8, 12) =~= spec_u32_to_le_bytes(h2.pid));
    assert(b.subrange(12, 16) =~= spec_u32_to_le_bytes(h1.num_allocations));
    assert(h2.spec_bytes().subrange(12, 16) =~= spec_u32_to_le_bytes(h2.num_allocations));
    assert(b.subrange(16, 24) =~= spec_u64_to_le_bytes(h1.total_size));
    assert(h2.spec_bytes().subrange(16, 24) =~= spec_u64_to_le_bytes(h2.total_size));
    assert(b.subrange(24, 32) =~= spec_u64_to_le_bytes(h1.timestamp));
    assert(h2.spec_bytes().subrange(24, 32) =~= spec_u64_to_le_bytes(h2.timestamp));
}

/// The checkpoint writer's configuration.
#[derive(Debug)]
pub struct BarSlidingCheckpoint {
    /// Size of the BAR window for sliding.
    window_size: usize,
    /// Whether to report progress.
    show_progress: bool,
}

impl BarSlidingCheckpoint {
    #[verifier::type_invariant]
    spec fn inv(&self) -> bool {
        self.window_size > 0
    }

    pub closed spec fn spec_window_size(&self) -> usize {
        self.window_size
    }

    pub closed spec fn spec_show_progress(&self) -> bool {
        self.show_progress
    }

    /// The default writer: 256 MiB windows, with progress reporting.
    pub fn new() -> (r: Self)
        ensures
            r.spec_window_size() == BAR_WINDOW_SIZE,
            r.spec_show_progress(),
    {
        BarSlidingCheckpoint { window_size: BAR_WINDOW_SIZE, show_progress: true }
    }

    /// The same writer with windows of `size` bytes.
    pub fn with_window_size(self, size: usize) -> (r: Self)
        requires
            size > 0,
        ensures
            r.spec_window_size() == size,
            r.spec_show_progress() == self.spec_show_progress(),
    {
        BarSlidingCheckpoint { window_size: size, show_progress: self.show_progress }
    }

    pub fn window_size(&self) -> (r: usize)
        ensures
            r == self.spec_window_size(),
            r > 0,
    {
        proof {
            use_type_invariant(self);
        }
        self.window_size
    }

    pub fn show_progress(&self) -> (r: bool)
        ensures
            r == self.spec_show_progress(),
    {
        self.show_progress
    }

    /// A writer for the checkpoint of `detection`, taken from process `pid`
    /// now. It is refused, with a `CheckpointError`, exactly when the file
    /// format cannot record the detection: more allocations than a `u32`
    /// counts, or sizes whose sum exceeds a `u64`.
    pub fn writer(&self, pid: u32, detection: &DetectionResult) -> (r: Result<CheckpointWriter, GpuCheckpointError>)
        ensures
            match r {
                Ok(w) => {
                    &&& w.wf()
                    &&& w.entries() == allocation_headers(detection.allocations@)
                    &&& w.header().magic == CHECKPOINT_MAGIC
                    &&& w.header().version == CHECKPOINT_VERSION
                    &&& w.header().pid == pid
                    &&& w.header().num_allocations == detection.allocations@.len()
                    &&& w.header().total_size == detection.total_gpu_memory
                    &&& w.window() == self.spec_window_size()
                    &&& w.written() == 0
                    &&& w.image() == Seq::<Option<u8>>::empty()
                    &&& w.payloads().len() == 0
                    &&& w.pending_write() == Some(w.header().spec_bytes())
                    &&& !w.is_done()
                },
                Err(e) => {
                    &&& e is CheckpointError
                    &&& (detection.allocations@.len() > u32::MAX || entry_total(
                        allocation_headers(detection.allocations@),
                    ) > u64::MAX)
                },
            },
    {
        proof {
            use_type_invariant(self);
        }
        let n = detection.allocations.len();
        if n > u32::MAX as usize {
            return Err(GpuCheckpointError::CheckpointError("too many allocations for the checkpoint format".to_owned()));
        }
        let mut entries: Vec<AllocationHeader> = Vec::new();
        let mut total: u64 = 0;
        let mut i: usize = 0;
        while i < n
            invariant
                i <= n == detection.allocations@.len(),
                entries@ == allocation_headers(detection.allocations@.take(i as int)),
                total == entry_total(entries@),
            decreases n - i,
        {
            let e = AllocationHeader::from_allocation(&detection.allocations[i]);
            assert(detection.allocations@.take(i + 1).drop_last() =~= detection.allocations@.take(i as int));
            let ghost before = entries@;
            entries.push(e);
            assert(entries@.drop_last() =~= before);
            match total.checked_add(e.size) {
                Some(t) => total = t,
                None => {
                    proof {
                        lemma_allocation_headers_prefix(detection.allocations@, i + 1);
                        lemma_entry_total_prefix(allocation_headers(detection.allocations@), i + 1);
                        assert(entry_total(entries@) == entry_total(before) + e.size);
                    }
                    return Err(GpuCheckpointError::CheckpointError("allocation sizes overflow the checkpoint total".to_owned()));
                },
            }
            i += 1;
        }
        assert(detection.allocations@.take(n as int) =~= detection.allocations@);
        assert(entries@.take(0) =~= Seq::<AllocationHeader>::empty());
        proof {
            lemma_allocation_headers_prefix(detection.allocations@, 0);
        }
        let header = CheckpointHeader {
            magic: CHECKPOINT_MAGIC,
            version: CHECKPOINT_VERSION,
            pid,
            num_allocations: n as u32,
            total_size: detection.total_gpu_memory,
            timestamp: unix_now(),
        };
        Ok(CheckpointWriter {
            window_size: self.window_size,
            header,
            entries,
            stage: WriterStage::FileHeader,
            index: 0,
            remaining: 0,
            payload_bytes: 0,
            written: Ghost(0),
            image: Ghost(Seq::empty()),
            copied: Ghost(Seq::empty()),
            current: Ghost(0),
            complete: Ghost(true),
        })
    }
}

/// The allocation headers recorded for a sequence of allocations.
pub open spec fn allocation_headers(s: Seq<GpuAllocation>) -> Seq<AllocationHeader>
    decreases s.len(),
{
    if s.len() == 0 {
        Seq::empty()
    } else {
        allocation_headers(s.drop_last()).push(
            AllocationHeader {
                vaddr_start: s.last().vaddr_start,
                vaddr_end: s.last().vaddr_end,
                size: s.last().size,
                device_id: match s.last().device_id {
                    Some(d) => d,
                    None => 0,
                },
                flags: 0,
            },
        )
    }
}

proof fn lemma_allocation_headers_prefix(s: Seq<GpuAllocation>, k: int)
    requires
        0 <= k <= s.len(),
    ensures
        allocation_headers(s).len() == s.len(),
        allocation_headers(s.take(k)) == allocation_headers(s).take(k),
    decreases s.len(),
{
    if s.len() > 0 {
        if k < s.len() {
            assert(s.drop_last().take(k) =~= s.take(k));
            lemma_allocation_headers_prefix(s.drop_last(), k);
            assert(allocation_headers(s).take(k) =~= allocation_headers(s.drop_last()).take(k));
        } else {
            lemma_allocation_headers_prefix(s.drop_last(), 0);
            assert(s.take(k) =~= s);
            assert(allocation_headers(s).take(k) =~= allocation_headers(s));
        }
    } else {
        assert(s.take(k) =~= s);
        assert(allocation_headers(s).take(k) =~= allocation_headers(s));
    }
}

/// The headers recorded for a sequence of allocations are as many, and
/// their sizes sum to the allocations' total.
pub proof fn lemma_allocation_headers_total(s: Seq<GpuAllocation>)
    ensures
        allocation_headers(s).len() == s.len(),
        entry_total(allocation_headers(s)) == total_size(alloc_views(s)),
    decreases s.len(),
{
    if s.len() > 0 {
        lemma_allocation_headers_total(s.drop_last());
        let h = allocation_headers(s);
        assert(h.drop_last() =~= allocation_headers(s.drop_last()));
        assert(h.last().size == s.last().size);
        assert(alloc_views(s).drop_last() =~= alloc_views(s.drop_last()));
        assert(alloc_views(s).last() == s.last()@);
    }
}

/// The sum of the sizes recorded in `s`.
pub open spec fn entry_total(s: Seq<AllocationHeader>) -> int
    decreases s.len(),
{
    if s.len() == 0 {
        0
    } else {
        entry_total(s.drop_last()) + s.last().size
    }
}

/// The sum of `s`.
pub open spec fn sum(s: Seq<int>) -> int
    decreases s.len(),
{
    if s.len() == 0 {
        0
    } else {
        sum(s.drop_last()) + s.last()
    }
}

/// The sizes recorded in `s`.
pub open spec fn entry_sizes(s: Seq<AllocationHeader>) -> Seq<int> {
    s.map_values(|e: AllocationHeader| e.size as int)
}

proof fn lemma_entry_total_prefix(s: Seq<AllocationHeader>, k: int)
    requires
        0 <= k <= s.len(),
    ensures
        0 <= entry_total(s.take(k)) <= entry_total(s),
    decreases s.len(),
{
    if k < s.len() {
        assert(s.drop_last().take(k) =~= s.take(k));
        lemma_entry_total_prefix(s.drop_last(), k);
    } else {
        assert(s.take(k) =~= s);
        if s.len() > 0 {
            lemma_entry_total_prefix(s.drop_last(), s.len() - 1);
        }
    }
}

pub proof fn lemma_entry_total_is_sum(s: Seq<AllocationHeader>)
    ensures
        entry_total(s) == sum(entry_sizes(s)),
    decreases s.len(),
{
    if s.len() > 0 {
        assert(entry_sizes(s).drop_last() =~= entry_sizes(s.drop_last()));
        lemma_entry_total_is_sum(s.drop_last());
    }
}

/// A sequence of non-negative numbers has a non-negative sum.
proof fn lemma_sum_nonneg(a: Seq<int>)
    requires
        forall|i: int| 0 <= i < a.len() ==> a[i] >= 0,
    ensures
        sum(a) >= 0,
    decreases a.len(),
{
    if a.len() > 0 {
        lemma_sum_nonneg(a.drop_last());
    }
}

/// A sequence bounded elementwise by another has no larger sum.
proof fn lemma_sum_le(a: Seq<int>, b: Seq<int>)
    requires
        a.len() == b.len(),
        forall|i: int| 0 <= i < a.len() ==> a[i] <= b[i],
    ensures
        sum(a) <= sum(b),
    decreases a.len(),
{
    if a.len() > 0 {
        lemma_sum_le(a.drop_last(), b.drop_last());
    }
}

/// Known bytes.
pub open spec fn known(b: Seq<u8>) -> Seq<Option<u8>> {
    b.map_values(|x: u8| Some(x))
}

/// `n` bytes whose content is not known.
pub open spec fn unknown(n: int) -> Seq<Option<u8>> {
    Seq::new(n as nat, |i: int| None)
}

/// A checkpoint file as far as its structure goes: the file header's bytes,
/// then for each allocation its header's bytes and as many payload bytes,
/// of unknown content, as `payloads` gives.
pub open spec fn file_image(
    header: Seq<u8>,
    entries: Seq<AllocationHeader>,
    payloads: Seq<int>,
) -> Seq<Option<u8>>
    decreases entries.len(),
{
    if entries.len() == 0 || payloads.len() == 0 {
        known(header)
    } else {
        file_image(header, entries.drop_last(), payloads.drop_last()) + known(
            entries.last().spec_bytes(),
        ) + unknown(payloads.last())
    }
}

/// Where the writer stands.
enum WriterStage {
    FileHeader,
    AllocationHeader,
    OpenPayload,
    Payload,
    Finished,
}

/// The next thing the checkpoint writer asks of the code that drives it.
pub enum CheckpointStep {
    /// Append these bytes to the checkpoint file, then call `wrote`.
    Write(Vec<u8>),
    /// Make ready the payload source of the next allocation, then call
    /// `opened`: the traced process's memory from `vaddr` on when its
    /// `/proc/<pid>/mem` exists, zeros otherwise.
    OpenPayload { vaddr: u64, size: u64 },
    /// Move at most `len` bytes from the payload source to the file, then
    /// call `copied` with how many moved; 0 means the source ran dry.
    Copy { len: usize },
    /// The file is complete.
    Done,
}

/// The checkpoint writer: decides what goes into the file and in which
/// windows, while its driver does the I/O.
pub struct CheckpointWriter {
    window_size: usize,
    header: CheckpointHeader,
    entries: Vec<AllocationHeader>,
    stage: WriterStage,
    /// The allocation being written.
    index: usize,
    /// Payload bytes still owed for the current allocation.
    remaining: u64,
    /// Sizes of the allocations whose payload is finished.
    payload_bytes: u64,
    /// Bytes appended to the file so far.
    written: Ghost<int>,
    /// What the file holds so far: header bytes known, payload bytes not.
    image: Ghost<Seq<Option<u8>>>,
    /// Payload bytes appended for each finished allocation.
    copied: Ghost<Seq<int>>,
    /// Payload bytes appended for the current allocation.
    current: Ghost<int>,
    /// Whether no copy so far came up short.
    complete: Ghost<bool>,
}

impl CheckpointWriter {
    pub closed spec fn entries(&self) -> Seq<AllocationHeader> {
        self.entries@
    }

    pub closed spec fn header(&self) -> CheckpointHeader {
        self.header
    }

    pub closed spec fn window(&self) -> usize {
        self.window_size
    }

    /// Bytes appended to the file so far.
    pub closed spec fn written(&self) -> int {
        self.written@
    }

    /// What the file holds so far: the bytes of the headers written, and
    /// the payload bytes copied, whose content the writer does not see.
    pub closed spec fn image(&self) -> Seq<Option<u8>> {
        self.image@
    }

    /// Payload bytes still owed for the allocation being copied.
    pub closed spec fn owed(&self) -> u64 {
        self.remaining
    }

    /// A bound on the steps left: every step strictly lowers it, so a loop
    /// that drives the writer ends.
    pub closed spec fn measure(&self) -> nat {
        let left = self.entries@.len() - self.index - 1;
        (match self.stage {
            WriterStage::FileHeader => (self.entries@.len() * STEP_SPAN as int + 1) as int,
            WriterStage::AllocationHeader => left * STEP_SPAN as int + STEP_SPAN as int - 1,
            WriterStage::OpenPayload => left * STEP_SPAN as int + STEP_SPAN as int - 2,
            WriterStage::Payload => left * STEP_SPAN as int + self.remaining + 1,
            WriterStage::Finished => 0int,
        }) as nat
    }

    /// Payload bytes appended for each allocation finished so far.
    pub closed spec fn payloads(&self) -> Seq<int> {
        self.copied@
    }

    /// Whether every copy so far moved all that was asked.
    pub closed spec fn complete(&self) -> bool {
        self.complete@
    }

    pub closed spec fn is_done(&self) -> bool {
        self.stage is Finished
    }

    /// The payload bytes that the checkpoint accounts for: the sizes of the
    /// allocations finished so far.
    pub closed spec fn spec_size_bytes(&self) -> u64 {
        self.payload_bytes
    }

    /// The bytes the next `Write` step appends, if the next step is one.
    pub closed spec fn pending_write(&self) -> Option<Seq<u8>> {
        match self.stage {
            WriterStage::FileHeader => Some(self.header.spec_bytes()),
            WriterStage::AllocationHeader => Some(self.entries@[self.index as int].spec_bytes()),
            _ => None,
        }
    }

    /// The window the next `Copy` step asks for, if the next step is one.
    pub closed spec fn pending_copy(&self) -> Option<usize> {
        match self.stage {
            WriterStage::Payload => Some(
                if self.remaining < self.window_size {
                    self.remaining as usize
                } else {
                    self.window_size
                },
            ),
            _ => None,
        }
    }

    pub closed spec fn pending_open(&self) -> bool {
        self.stage is OpenPayload
    }

    /// The writer's bookkeeping holds together: the file so far is the
    /// header, then for each allocation begun its header and the payload
    /// copied for it; no payload exceeds its allocation's size; and the
    /// finished allocations' sizes are accounted for.
    pub closed spec fn wf(&self) -> bool {
        self.wf_core() && (self.stage is Payload ==> self.remaining > 0)
    }

    closed spec fn wf_core(&self) -> bool {
        let n = self.entries@.len();
        let c = self.copied@;
        let sizes = entry_sizes(self.entries@);
        &&& self.window_size > 0
        &&& n == self.header.num_allocations
        &&& entry_total(self.entries@) <= u64::MAX
        &&& self.index <= n
        &&& c.len() == self.index
        &&& forall|i: int| 0 <= i < c.len() ==> 0 <= #[trigger] c[i] <= sizes[i]
        &&& self.complete@ ==> forall|i: int| 0 <= i < c.len() ==> #[trigger] c[i] == sizes[i]
        &&& self.payload_bytes == entry_total(self.entries@.take(self.index as int))
        &&& self.image@.len() == self.written@
        &&& self.image@ == match self.stage {
            WriterStage::FileHeader => Seq::empty(),
            WriterStage::AllocationHeader | WriterStage::Finished => file_image(
                self.header.spec_bytes(),
                self.entries@.take(self.index as int),
                c,
            ),
            WriterStage::OpenPayload | WriterStage::Payload => file_image(
                self.header.spec_bytes(),
                self.entries@.take(self.index as int),
                c,
            ) + known(self.entries@[self.index as int].spec_bytes()) + unknown(self.current@),
        }
        &&& match self.stage {
            WriterStage::FileHeader => self.index == 0 && self.written@ == 0,
            WriterStage::AllocationHeader => self.index < n && self.written@ == HEADER_SIZE
                + ALLOCATION_HEADER_SIZE * self.index + sum(c),
            WriterStage::OpenPayload | WriterStage::Payload => {
                &&& self.index < n
                &&& self.written@ == HEADER_SIZE + ALLOCATION_HEADER_SIZE * (self.index + 1) + sum(c) + self.current@
                &&& 0 <= self.current@
                &&& self.current@ + self.remaining == self.entries@[self.index as int].size
                &&& self.stage is OpenPayload ==> self.current@ == 0
            },
            WriterStage::Finished => self.index == n && self.written@ == HEADER_SIZE
                + ALLOCATION_HEADER_SIZE * n + sum(c),
        }
    }

    /// What the driver should do next.
    pub fn next_step(&self) -> (r: CheckpointStep)
        requires
            self.wf(),
        ensures
            match r {
                CheckpointStep::Write(b) => self.pending_write() == Some(b@) && (self.image().len() == 0
                    ==> b@ == self.header().spec_bytes()) && (self.image().len() > 0 ==> b@
                    == self.entries()[self.payloads().len() as int].spec_bytes()),
                CheckpointStep::OpenPayload { vaddr, size } => self.pending_open() && vaddr
                    == self.entries()[self.payloads().len() as int].vaddr_start && size
                    == self.entries()[self.payloads().len() as int].size && size == self.owed(),
                CheckpointStep::Copy { len } => {
                    &&& self.pending_copy() == Some(len)
                    &&& 0 < len <= self.window()
                    &&& len <= self.owed()
                    &&& len == if self.owed() < self.window() {
                        self.owed() as usize
                    } else {
                        self.window()
                    }
                },
                CheckpointStep::Done => self.is_done(),
            },
            self.pending_write() is Some ==> r is Write,
            self.pending_open() ==> r is OpenPayload,
            self.pending_copy() is Some ==> r is Copy,
            self.is_done() ==> r is Done,
    {
        match self.stage {
            WriterStage::FileHeader => {
                CheckpointStep::Write(self.header.to_bytes())
            },
            WriterStage::AllocationHeader => {
                proof {
                    lemma_sum_nonneg(self.copied@);
                }
                CheckpointStep::Write(self.entries[self.index].to_bytes())
            },
            WriterStage::OpenPayload => CheckpointStep::OpenPayload {
                vaddr: self.entries[self.index].vaddr_start,
                size: self.entries[self.index].size,
            },
            WriterStage::Payload => CheckpointStep::Copy {
                len: if self.remaining < self.window_size as u64 {
                    self.remaining as usize
                } else {
                    self.window_size
                },
            },
            WriterStage::Finished => CheckpointStep::Done,
        }
    }

    /// Moves past a finished allocation.
    fn finish_allocation(&mut self)
        requires
            old(self).wf_core(),
            old(self).stage is OpenPayload || old(self).stage is Payload,
            old(self).complete@ ==> old(self).remaining == 0,
            old(self).remaining == 0 || !old(self).complete@,
        ensures
            final(self).wf(),
            final(self).copied@ == old(self).copied@.push(old(self).current@),
            final(self).written@ == old(self).written@,
            final(self).image@ == old(self).image@,
            !(final(self).stage is Payload),
            !(final(self).stage is FileHeader),
            final(self).complete@ == old(self).complete@,
            final(self).entries@ == old(self).entries@,
            final(self).header == old(self).header,
            final(self).window_size == old(self).window_size,
            final(self).measure() < (old(self).entries@.len() - old(self).index - 1) * STEP_SPAN as int + 1,
            final(self).is_done() <==> final(self).copied@.len() == final(self).entries@.len(),
            !final(self).is_done() ==> final(self).pending_write() == Some(
                final(self).entries@[final(self).copied@.len() as int].spec_bytes(),
            ),
    {
        let ghost before = self.copied@;
        let ghost n = self.entries@.len();
        let ghost sizes = entry_sizes(self.entries@);
        proof {
            lemma_entry_total_prefix(self.entries@, self.index + 1);
            let t = self.entries@.take(self.index + 1);
            assert(t.drop_last() =~= self.entries@.take(self.index as int));
        }
        self.payload_bytes = self.payload_bytes + self.entries[self.index].size;
        self.copied = Ghost(self.copied@.push(self.current@));
        self.current = Ghost(0);
        self.index = self.index + 1;
        self.remaining = 0;
        if self.index == self.entries.len() {
            self.stage = WriterStage::Finished;
        } else {
            self.stage = WriterStage::AllocationHeader;
        }
        proof {
            let c = self.copied@;
            assert(c.drop_last() =~= before);
            let t = self.entries@.take(self.index as int);
            assert(t.drop_last() =~= self.entries@.take(self.index - 1));
            assert(t.last() == self.entries@[self.index - 1]);
            assert forall|i: int| 0 <= i < c.len() implies 0 <= #[trigger] c[i] <= sizes[i] by {
                if i < before.len() {
                    assert(c[i] == before[i]);
                }
            }
            if self.complete@ {
                assert forall|i: int| 0 <= i < c.len() implies #[trigger] c[i] == sizes[i] by {
                    if i < before.len() {
                        assert(c[i] == before[i]);
                    }
                }
            }
        }
    }

    /// Records that the pending `Write` step was carried out.
    pub fn wrote(&mut self)
        requires
            old(self).wf(),
            old(self).pending_write() is Some,
        ensures
            final(self).wf(),
            final(self).written() == old(self).written() + old(self).pending_write()->0.len(),
            final(self).image() == old(self).image() + known(old(self).pending_write()->0),
            old(self).image().len() > 0 ==> final(self).pending_open() && final(self).owed()
                == old(self).entries()[old(self).payloads().len() as int].size,
            old(self).image().len() == 0 ==> (final(self).is_done() <==> final(self).entries().len() == 0),
            old(self).image().len() == 0 && !final(self).is_done() ==> final(self).pending_write() == Some(
                final(self).entries()[0].spec_bytes(),
            ),
            final(self).payloads() == old(self).payloads(),
            final(self).measure() < old(self).measure(),
            final(self).complete() == old(self).complete(),
            final(self).entries() == old(self).entries(),
            final(self).header() == old(self).header(),
            final(self).window() == old(self).window(),
    {
        proof {
            lemma_auto_spec_u32_to_from_le_bytes();
            lemma_auto_spec_u64_to_from_le_bytes();
        }
        match self.stage {
            WriterStage::FileHeader => {
                self.written = Ghost(HEADER_SIZE as int);
                self.image = Ghost(known(self.header.spec_bytes()));
                assert(self.entries@.take(0) =~= Seq::<AllocationHeader>::empty());
                assert(Seq::<Option<u8>>::empty() + known(self.header.spec_bytes()) =~= known(self.header.spec_bytes()));
                if self.entries.len() == 0 {
                    self.stage = WriterStage::Finished;
                } else {
                    self.stage = WriterStage::AllocationHeader;
                }
            },
            _ => {
                self.written = Ghost(self.written@ + ALLOCATION_HEADER_SIZE);
                self.image = Ghost(self.image@ + known(self.entries@[self.index as int].spec_bytes()));
                assert(self.image@ + unknown(0) =~= self.image@);
                self.remaining = self.entries[self.index].size;
                self.current = Ghost(0);
                self.stage = WriterStage::OpenPayload;
            },
        }
    }

    /// Records that the payload source of the current allocation is ready.
    pub fn opened(&mut self)
        requires
            old(self).wf(),
            old(self).pending_open(),
        ensures
            final(self).wf(),
            final(self).written() == old(self).written(),
            final(self).image() == old(self).image(),
            final(self).complete() == old(self).complete(),
            final(self).entries() == old(self).entries(),
            final(self).header() == old(self).header(),
            final(self).window() == old(self).window(),
            final(self).pending_copy() is Some ==> final(self).owed() == old(self).owed(),
            final(self).pending_copy() is None <==> old(self).owed() == 0,
            final(self).payloads().len() == old(self).payloads().len() + if final(self).pending_copy() is None {
                1int
            } else {
                0
            },
            final(self).pending_copy() is None ==> (final(self).is_done() <==> final(self).payloads().len()
                == final(self).entries().len()),
            final(self).pending_copy() is None && !final(self).is_done() ==> final(self).pending_write()
                == Some(final(self).entries()[final(self).payloads().len() as int].spec_bytes()),
            final(self).measure() < old(self).measure(),
    {
        if self.remaining == 0 {
            self.finish_allocation();
        } else {
            self.stage = WriterStage::Payload;
        }
    }

    /// Records that the pending `Copy` step moved `moved` bytes.
    pub fn copied(&mut self, moved: usize)
        requires
            old(self).wf(),
            old(self).pending_copy() matches Some(len) && moved <= len,
        ensures
            final(self).wf(),
            final(self).written() == old(self).written() + moved,
            final(self).image() == old(self).image() + unknown(moved as int),
            final(self).pending_copy() is Some ==> final(self).owed() == old(self).owed() - moved,
            final(self).pending_copy() is None <==> (moved == 0 || moved == old(self).owed()),
            final(self).payloads().len() == old(self).payloads().len() + if final(self).pending_copy() is None {
                1int
            } else {
                0
            },
            final(self).pending_copy() is None ==> (final(self).is_done() <==> final(self).payloads().len()
                == final(self).entries().len()),
            final(self).pending_copy() is None && !final(self).is_done() ==> final(self).pending_write()
                == Some(final(self).entries()[final(self).payloads().len() as int].spec_bytes()),
            final(self).measure() < old(self).measure(),
            final(self).complete() == (old(self).complete() && moved > 0),
            final(self).entries() == old(self).entries(),
            final(self).header() == old(self).header(),
            final(self).window() == old(self).window(),
    {
        if moved == 0 {
            assert(self.image@ + unknown(0) =~= self.image@);
            self.complete = Ghost(false);
            self.finish_allocation();
            return;
        }
        let ghost cur = self.current@;
        let ghost base = file_image(self.header.spec_bytes(), self.entries@.take(self.index as int), self.copied@)
            + known(self.entries@[self.index as int].spec_bytes());
        assert(self.image@ == base + unknown(cur));
        self.image = Ghost(self.image@ + unknown(moved as int));
        assert(self.image@ =~= base + unknown(cur + moved));
        self.remaining = self.remaining - moved as u64;
        self.current = Ghost(self.current@ + moved);
        self.written = Ghost(self.written@ + moved);
        if self.remaining == 0 {
            self.finish_allocation();
        }
    }

    /// The payload bytes the checkpoint accounts for.
    pub fn size_bytes(&self) -> (r: u64)
        ensures
            r == self.spec_size_bytes(),
    {
        self.payload_bytes
    }

    /// The number of allocations the checkpoint holds.
    pub fn num_allocations(&self) -> (r: usize)
        ensures
            r == self.entries().len(),
    {
        self.entries.len()
    }
}

/// The contents and length of a finished checkpoint file: the file
/// header's bytes, then for each allocation its header's bytes and the
/// payload copied for it, no payload longer than its allocation. So the
/// file is at most 32 + 32 n + the sum of the sizes bytes long, and exactly
/// that long, with every payload whole, when no copy came up short; the
/// payload accounted for is the sum of the sizes either way.
pub proof fn lemma_checkpoint_file_length(w: &CheckpointWriter)
    requires
        w.wf(),
        w.is_done(),
    ensures
        w.payloads().len() == w.entries().len(),
        w.image() == file_image(w.header().spec_bytes(), w.entries(), w.payloads()),
        w.image().len() == w.written(),
        w.complete() ==> w.image() == file_image(w.header().spec_bytes(), w.entries(), entry_sizes(w.entries())),
        w.written() == HEADER_SIZE + ALLOCATION_HEADER_SIZE * w.entries().len() + sum(w.payloads()),
        forall|i: int| 0 <= i < w.payloads().len() ==> 0 <= #[trigger] w.payloads()[i] <= w.entries()[i].size,
        w.written() <= HEADER_SIZE + ALLOCATION_HEADER_SIZE * w.entries().len() + entry_total(w.entries()),
        w.complete() ==> w.written() == HEADER_SIZE + ALLOCATION_HEADER_SIZE * w.entries().len()
            + entry_total(w.entries()),
        w.spec_size_bytes() == entry_total(w.entries()),
{
    let c = w.copied@;
    let sizes = entry_sizes(w.entries@);
    assert(w.entries@.take(w.entries@.len() as int) =~= w.entries@);
    lemma_entry_total_is_sum(w.entries@);
    assert forall|i: int| 0 <= i < c.len() implies c[i] <= sizes[i] by {}
    lemma_sum_le(c, sizes);
    if w.complete@ {
        assert(c =~= sizes);
    }
}

/// What a finished writer wrote: the header it announced, one payload per
/// allocation, and every payload whole when no copy came up short.
pub proof fn lemma_writer_finished(w: &CheckpointWriter)
    requires
        w.wf(),
        w.is_done(),
    ensures
        w.payloads().len() == w.entries().len() == w.header().num_allocations,
        w.complete() ==> w.payloads() == entry_sizes(w.entries()),
{
    if w.complete@ {
        assert(w.copied@ =~= entry_sizes(w.entries@));
    }
}

/// What a BAR-sliding checkpoint produced.
#[derive(Debug)]
pub struct CheckpointMetadata {
    pub pid: u32,
    pub path: String,
    /// Total payload bytes, not the file size.
    pub size_bytes: u64,
    pub duration_ms: u64,
    pub num_allocations: usize,
}

} // verus!
