//! The BAR-sliding restore reader: validates a checkpoint file and streams
//! its payloads back into the target process's memory, or past it.
use vstd::prelude::*;

use crate::checkpoint::bar_sliding::{
    AllocationHeader, CheckpointHeader, ALLOCATION_HEADER_SIZE, BAR_WINDOW_SIZE, CHECKPOINT_MAGIC,
    CHECKPOINT_VERSION, HEADER_SIZE, STEP_SPAN,
};
use crate::checkpoint::bar_sliding::{
    allocation_headers, entry_sizes, entry_total, file_image, known, lemma_allocation_headers_total,
    lemma_checkpoint_file_length, unknown, lemma_allocation_header_bytes_injective, lemma_entry_total_is_sum,
    lemma_header_bytes_injective, lemma_writer_finished, sum, CheckpointWriter,
};
use crate::text::{push_str, string_of};
use crate::detector::types::{alloc_views, total_size};
use crate::detector::DetectionResult;
use crate::GpuCheckpointError;

verus! {

/// The restore reader's configuration.
#[derive(Debug)]
pub struct BarRestore {
    /// Size of the window for sliding restore.
    window_size: usize,
    /// Whether to report progress.
    show_progress: bool,
}

/// What a restore did.
#[derive(Debug)]
pub struct RestoreMetadata {
    pub pid: u32,
    pub num_allocations: usize,
    /// Payload bytes consumed from the file, skipped ones included.
    pub total_size: u64,
    pub duration_ms: u64,
}

/// Whether a checkpoint header can be restored: the magic and the version
/// are this format's.
pub open spec fn header_valid(h: CheckpointHeader) -> bool {
    h.magic == CHECKPOINT_MAGIC && h.version == CHECKPOINT_VERSION
}

impl BarRestore {
    #[verifier::type_invariant]
    spec fn inv(&self) -> bool {
        self.window_size > 0
    }

    pub closed spec fn spec_window_size(&self) -> usize {
        self.window_size
    }

    /// The default reader: 256 MiB windows, with progress reporting.
    pub fn new() -> (r: Self)
        ensures
            r.spec_window_size() == BAR_WINDOW_SIZE,
            r.spec_show_progress(),
    {
        BarRestore { window_size: BAR_WINDOW_SIZE, show_progress: true }
    }

    pub fn window_size(&self) -> (r: usize)
        ensures
            r == self.spec_window_size(),
            r > 0,
    {
        proof {
            use_type_invariant(self);
        }
        self.window_size
    }

    pub closed spec fn spec_show_progress(&self) -> bool {
        self.show_progress
    }

    pub fn show_progress(&self) -> (r: bool)
        ensures
            r == self.spec_show_progress(),
    {
        self.show_progress
    }

    /// Accepts a header of this format and refuses any other with a
    /// `RestoreError` naming the bad magic or version.
    pub fn validate_header(&self, header: &CheckpointHeader) -> (r: Result<(), GpuCheckpointError>)
        ensures
            r is Ok <==> header_valid(*header),
            r matches Err(e) ==> e is RestoreError,
    {
        check_header(header)
    }

    /// A reader that restores into process `target_pid`, or into the process
    /// the checkpoint was taken from when none is given, from a checkpoint
    /// file `file_len` bytes long.
    pub fn reader(&self, target_pid: Option<u32>, file_len: u64) -> (r: RestoreReader)
        ensures
            r.wf(),
            r.pending_header(),
            r.window() == self.spec_window_size(),
            r.spec_target_pid() == target_pid,
            r.file_left() == file_len,
            r.spec_consumed() == 0,
    {
        proof {
            use_type_invariant(self);
        }
        RestoreReader {
            window_size: self.window_size,
            target_pid,
            pid: 0,
            header: CheckpointHeader {
                magic: 0,
                version: 0,
                pid: 0,
                num_allocations: 0,
                total_size: 0,
                timestamp: 0,
            },
            stage: ReaderStage::FileHeader,
            index: 0,
            current: AllocationHeader { vaddr_start: 0, vaddr_end: 0, size: 0, device_id: 0, flags: 0 },
            remaining: 0,
            to_target: false,
            consumed: 0,
            file_left: file_len,
            header_bytes: Ghost(Seq::empty()),
            entries: Ghost(Seq::empty()),
            payloads: Ghost(Seq::empty()),
            current_read: Ghost(0),
            complete: Ghost(true),
        }
    }
}

/// Accepts a header of this format and refuses any other.
fn check_header(header: &CheckpointHeader) -> (r: Result<(), GpuCheckpointError>)
    ensures
        r is Ok <==> header_valid(*header),
        r matches Err(e) ==> e is RestoreError,
{
    if header.magic != CHECKPOINT_MAGIC {
        let mut msg = "Invalid checkpoint magic: 0x".to_owned();
        push_str(&mut msg, &string_of(&crate::text::hex_digits(header.magic as u64, 8)));
        push_str(&mut msg, &" (expected 0x47505543)".to_owned());
        return Err(GpuCheckpointError::RestoreError(msg));
    }
    if header.version != CHECKPOINT_VERSION {
        let mut msg = "Unsupported checkpoint version: ".to_owned();
        push_str(&mut msg, &string_of(&crate::text::decimal_digits(header.version as u64)));
        push_str(&mut msg, &" (expected 1)".to_owned());
        return Err(GpuCheckpointError::RestoreError(msg));
    }
    Ok(())
}

/// Where the reader stands.
enum ReaderStage {
    FileHeader,
    AllocationHeader,
    OpenTarget,
    Payload,
    Finished,
}

/// The next thing the restore reader asks of the code that drives it.
pub enum RestoreStep {
    /// Read exactly `HEADER_SIZE` bytes of the checkpoint file and hand them
    /// to `header_read`; a short read fails the restore with an I/O error.
    ReadHeader,
    /// Read exactly `ALLOCATION_HEADER_SIZE` bytes and hand them to
    /// `allocation_header_read`; a short read fails the restore with an I/O
    /// error.
    ReadAllocationHeader,
    /// Open `/proc/<pid>/mem` for writing at `vaddr` if it exists, and report
    /// with `target_opened` whether it is ready for writing.
    OpenTarget { pid: u32, vaddr: u64 },
    /// Read at most `len` payload bytes from the file and, when `to_target`,
    /// write them to the target's memory; report with `transferred` how many
    /// were read and whether writing them succeeded. `len` never exceeds the
    /// window, the payload bytes still owed, or the bytes left in the file.
    Transfer { len: usize, to_target: bool },
    /// Every allocation has been handled.
    Done,
}

/// The restore reader: decides what to read from the checkpoint file and
/// where its bytes go, while its driver does the I/O.
pub struct RestoreReader {
    window_size: usize,
    target_pid: Option<u32>,
    /// The process restored into, once the header is read.
    pid: u32,
    header: CheckpointHeader,
    stage: ReaderStage,
    /// Allocations finished so far.
    index: u32,
    current: AllocationHeader,
    /// Payload bytes of the current allocation still to be read.
    remaining: u64,
    /// Whether the current payload still goes to the target's memory.
    to_target: bool,
    /// Payload bytes read from the file so far.
    consumed: u64,
    /// Bytes of the file not read yet.
    file_left: u64,
    /// The file header's bytes as read.
    header_bytes: Ghost<Seq<u8>>,
    /// The allocation headers read, the current one included.
    entries: Ghost<Seq<AllocationHeader>>,
    /// Payload bytes read for each finished allocation.
    payloads: Ghost<Seq<int>>,
    /// Payload bytes read for the current allocation.
    current_read: Ghost<int>,
    /// Whether no read so far came up short.
    complete: Ghost<bool>,
}

impl RestoreReader {
    pub closed spec fn window(&self) -> usize {
        self.window_size
    }

    pub closed spec fn spec_target_pid(&self) -> Option<u32> {
        self.target_pid
    }

    pub closed spec fn header_bytes(&self) -> Seq<u8> {
        self.header_bytes@
    }

    pub closed spec fn header(&self) -> CheckpointHeader {
        self.header
    }

    /// The allocation headers read so far, the current one included.
    pub closed spec fn entries(&self) -> Seq<AllocationHeader> {
        self.entries@
    }

    /// Payload bytes read for each finished allocation.
    pub closed spec fn payloads(&self) -> Seq<int> {
        self.payloads@
    }

    pub closed spec fn complete(&self) -> bool {
        self.complete@
    }

    pub closed spec fn spec_consumed(&self) -> u64 {
        self.consumed
    }

    /// The process restored into: the target given, else the one the
    /// checkpoint was taken from, once the header is read.
    pub closed spec fn spec_pid(&self) -> u32 {
        self.pid
    }

    /// Whether the current payload's bytes go to the target's memory.
    pub closed spec fn spec_to_target(&self) -> bool {
        self.to_target
    }

    /// Payload bytes still owed for the allocation being restored.
    pub closed spec fn owed(&self) -> u64 {
        self.remaining
    }

    /// Bytes of the checkpoint file not read yet.
    pub closed spec fn file_left(&self) -> u64 {
        self.file_left
    }

    /// A bound on the steps left: every step strictly lowers it, so a loop
    /// that drives the reader ends.
    pub closed spec fn measure(&self) -> nat {
        let left = self.header.num_allocations - self.index - 1;
        (match self.stage {
            ReaderStage::FileHeader => (u32::MAX + 1) * STEP_SPAN as int,
            ReaderStage::AllocationHeader => left * STEP_SPAN as int + STEP_SPAN as int - 1,
            ReaderStage::OpenTarget => left * STEP_SPAN as int + STEP_SPAN as int - 2,
            ReaderStage::Payload => left * STEP_SPAN as int + self.remaining + 1,
            ReaderStage::Finished => 0int,
        }) as nat
    }

    /// The smallest of the window, the bytes owed and the bytes left in the file.
    pub open spec fn transfer_len(window: usize, owed: u64, file_left: u64) -> usize {
        let a = if owed < file_left {
            owed
        } else {
            file_left
        };
        if a < window {
            a as usize
        } else {
            window
        }
    }

    pub closed spec fn is_done(&self) -> bool {
        self.stage is Finished
    }

    pub closed spec fn pending_header(&self) -> bool {
        self.stage is FileHeader
    }

    pub closed spec fn pending_allocation_header(&self) -> bool {
        self.stage is AllocationHeader
    }

    pub closed spec fn pending_open(&self) -> bool {
        self.stage is OpenTarget
    }

    /// The window the next `Transfer` asks for, if the next step is one.
    pub closed spec fn pending_transfer(&self) -> Option<usize> {
        match self.stage {
            ReaderStage::Payload => Some(
                Self::transfer_len(self.window_size, self.remaining, self.file_left),
            ),
            _ => None,
        }
    }

    /// The reader's bookkeeping holds together: once the header is read it
    /// is valid and names the target; the payload bytes consumed are those
    /// read for each allocation, none more than its size, all of it when no
    /// read came up short.
    pub closed spec fn wf(&self) -> bool {
        self.wf_core() && (self.stage is Payload ==> self.remaining > 0 && self.file_left > 0)
    }

    closed spec fn wf_core(&self) -> bool {
        let p = self.payloads@;
        let e = self.entries@;
        let in_allocation = self.stage is OpenTarget || self.stage is Payload;
        &&& self.window_size > 0
        &&& p.len() == self.index
        &&& e.len() == self.index + if in_allocation {
            1int
        } else {
            0
        }
        &&& forall|i: int| 0 <= i < p.len() ==> 0 <= #[trigger] p[i] <= e[i].size
        &&& self.complete@ ==> forall|i: int| 0 <= i < p.len() ==> #[trigger] p[i] == e[i].size
        &&& self.consumed == sum(p) + if in_allocation {
            self.current_read@
        } else {
            0
        }
        &&& match self.stage {
            ReaderStage::FileHeader => self.index == 0 && self.header_bytes@.len() == 0 && e.len() == 0,
            _ => {
                &&& self.header_bytes@ == self.header.spec_bytes()
                &&& header_valid(self.header)
                &&& self.index <= self.header.num_allocations
                &&& self.pid == match self.target_pid {
                    Some(t) => t,
                    None => self.header.pid,
                }
                &&& self.stage is Finished ==> self.index == self.header.num_allocations
                &&& self.stage is AllocationHeader ==> self.index < self.header.num_allocations
                &&& in_allocation ==> {
                    &&& self.index < self.header.num_allocations
                    &&& self.current == e[self.index as int]
                    &&& 0 <= self.current_read@
                    &&& self.current_read@ + self.remaining == self.current.size
                    &&& self.stage is OpenTarget ==> self.current_read@ == 0
                }
            },
        }
    }

    /// What the driver should do next.
    pub fn next_step(&self) -> (r: RestoreStep)
        requires
            self.wf(),
        ensures
            match r {
                RestoreStep::ReadHeader => self.pending_header(),
                RestoreStep::ReadAllocationHeader => self.pending_allocation_header(),
                RestoreStep::OpenTarget { pid, vaddr } => self.pending_open() && pid == self.spec_pid()
                    && vaddr == self.entries().last().vaddr_start,
                RestoreStep::Transfer { len, to_target } => {
                    &&& self.pending_transfer() == Some(len)
                    &&& 0 < len <= self.window()
                    &&& len <= self.owed()
                    &&& len <= self.file_left()
                    &&& len == Self::transfer_len(self.window(), self.owed(), self.file_left())
                    &&& to_target == self.spec_to_target()
                },
                RestoreStep::Done => self.is_done(),
            },
            self.pending_header() ==> r is ReadHeader,
            self.pending_allocation_header() ==> r is ReadAllocationHeader,
            self.pending_open() ==> r is OpenTarget,
            self.pending_transfer() is Some ==> r is Transfer,
            self.is_done() ==> r is Done,
    {
        match self.stage {
            ReaderStage::FileHeader => RestoreStep::ReadHeader,
            ReaderStage::AllocationHeader => RestoreStep::ReadAllocationHeader,
            ReaderStage::OpenTarget => RestoreStep::OpenTarget { pid: self.pid, vaddr: self.current.vaddr_start },
            ReaderStage::Payload => {
                let a = if self.remaining < self.file_left {
                    self.remaining
                } else {
                    self.file_left
                };
                RestoreStep::Transfer {
                    len: if a < self.window_size as u64 {
                        a as usize
                    } else {
                        self.window_size
                    },
                    to_target: self.to_target,
                }
            },
            ReaderStage::Finished => RestoreStep::Done,
        }
    }

    /// Takes the file header's bytes: a header of this format starts the
    /// restore, any other ends it with a `RestoreError`.
    pub fn header_read(&mut self, bytes: &[u8]) -> (r: Result<(), GpuCheckpointError>)
        requires
            old(self).wf(),
            old(self).pending_header(),
            bytes@.len() == HEADER_SIZE,
        ensures
            r is Ok <==> header_valid(CheckpointHeader::spec_from_bytes(bytes@)),
            r matches Err(e) ==> e is RestoreError,
            r is Ok ==> {
                &&& final(self).wf()
                &&& final(self).header_bytes() == bytes@
                &&& final(self).header() == CheckpointHeader::spec_from_bytes(bytes@)
                &&& final(self).entries() == old(self).entries()
                &&& final(self).payloads() == old(self).payloads()
                &&& final(self).complete() == old(self).complete()
                &&& final(self).spec_consumed() == 0
                &&& final(self).spec_target_pid() == old(self).spec_target_pid()
                &&& final(self).spec_pid() == match old(self).spec_target_pid() {
                    Some(t) => t,
                    None => final(self).header().pid,
                }
                &&& final(self).file_left() == if old(self).file_left() >= HEADER_SIZE {
                    old(self).file_left() - HEADER_SIZE
                } else {
                    0
                }
                &&& final(self).payloads().len() == 0
                &&& final(self).is_done() <==> final(self).header().num_allocations == 0
                &&& !final(self).is_done() ==> final(self).pending_allocation_header()
                &&& final(self).measure() < old(self).measure()
            },
    {
        let header = CheckpointHeader::from_bytes(bytes);
        proof {
            CheckpointHeader::lemma_spec_from_bytes(bytes@, header);
        }
        match check_header(&header) {
            Ok(()) => {},
            Err(e) => return Err(e),
        }
        self.pid = match self.target_pid {
            Some(t) => t,
            None => header.pid,
        };
        self.header = header;
        self.header_bytes = Ghost(bytes@);
        self.file_left = if self.file_left >= HEADER_SIZE as u64 {
            self.file_left - HEADER_SIZE as u64
        } else {
            0
        };
        if header.num_allocations == 0 {
            self.stage = ReaderStage::Finished;
        } else {
            self.stage = ReaderStage::AllocationHeader;
        }
        Ok(())
    }

    /// Takes the next allocation header's bytes.
    pub fn allocation_header_read(&mut self, bytes: &[u8])
        requires
            old(self).wf(),
            old(self).pending_allocation_header(),
            bytes@.len() == ALLOCATION_HEADER_SIZE,
        ensures
            final(self).wf(),
            final(self).entries() == old(self).entries().push(AllocationHeader::spec_from_bytes(bytes@)),
            final(self).payloads() == old(self).payloads(),
            final(self).header_bytes() == old(self).header_bytes(),
            final(self).header() == old(self).header(),
            final(self).complete() == old(self).complete(),
            final(self).spec_consumed() == old(self).spec_consumed(),
            final(self).pending_open(),
            final(self).owed() == AllocationHeader::spec_from_bytes(bytes@).size,
            final(self).measure() < old(self).measure(),
            final(self).spec_pid() == old(self).spec_pid(),
            final(self).spec_target_pid() == old(self).spec_target_pid(),
            final(self).file_left() == if old(self).file_left() >= ALLOCATION_HEADER_SIZE {
                old(self).file_left() - ALLOCATION_HEADER_SIZE
            } else {
                0
            },
    {
        let entry = AllocationHeader::from_bytes(bytes);
        proof {
            AllocationHeader::lemma_spec_from_bytes(bytes@, entry);
        }
        self.current = entry;
        self.entries = Ghost(self.entries@.push(entry));
        self.remaining = entry.size;
        self.current_read = Ghost(0);
        self.file_left = if self.file_left >= ALLOCATION_HEADER_SIZE as u64 {
            self.file_left - ALLOCATION_HEADER_SIZE as u64
        } else {
            0
        };
        self.stage = ReaderStage::OpenTarget;
    }

    /// Takes whether the target's memory is ready for writing; when it is
    /// not, the payload is read and discarded. A payload that the file has
    /// no bytes left for ends at once, short.
    pub fn target_opened(&mut self, writable: bool)
        requires
            old(self).wf(),
            old(self).pending_open(),
        ensures
            final(self).wf(),
            final(self).entries() == old(self).entries(),
            final(self).header_bytes() == old(self).header_bytes(),
            final(self).header() == old(self).header(),
            final(self).complete() == (old(self).complete() && (old(self).owed() == 0 || old(self).file_left() > 0)),
            final(self).spec_consumed() == old(self).spec_consumed(),
            final(self).pending_transfer() is Some ==> final(self).spec_to_target() == writable
                && final(self).owed() == old(self).owed(),
            final(self).pending_transfer() is None ==> old(self).owed() == 0 || old(self).file_left() == 0,
            final(self).spec_pid() == old(self).spec_pid(),
            final(self).spec_target_pid() == old(self).spec_target_pid(),
            final(self).file_left() == old(self).file_left(),
            final(self).payloads().len() == old(self).payloads().len() + if final(self).pending_transfer() is None {
                1int
            } else {
                0
            },
            final(self).pending_transfer() is None ==> (final(self).is_done() <==> final(self).payloads().len()
                == final(self).header().num_allocations),
            final(self).pending_transfer() is None && !final(self).is_done() ==> final(self).pending_allocation_header(),
            final(self).measure() < old(self).measure(),
    {
        self.to_target = writable;
        if self.remaining == 0 {
            self.finish_allocation();
        } else if self.file_left == 0 {
            self.complete = Ghost(false);
            self.finish_allocation();
        } else {
            self.stage = ReaderStage::Payload;
        }
    }

    /// Takes how many bytes the pending `Transfer` read and whether writing
    /// them to the target succeeded; after a failed write the rest of the
    /// payload is read and discarded, and a read of 0 bytes, or reaching the
    /// end of the file, ends the payload short.
    pub fn transferred(&mut self, read: usize, write_ok: bool)
        requires
            old(self).wf(),
            old(self).pending_transfer() matches Some(len) && read <= len,
            old(self).spec_consumed() + read <= u64::MAX,
        ensures
            final(self).wf(),
            final(self).entries() == old(self).entries(),
            final(self).header_bytes() == old(self).header_bytes(),
            final(self).header() == old(self).header(),
            final(self).complete() ==> old(self).complete() && read > 0,
            old(self).complete() && read > 0 && (read < old(self).owed() ==> read < old(self).file_left())
                ==> final(self).complete(),
            final(self).spec_consumed() == old(self).spec_consumed() + read,
            final(self).file_left() == old(self).file_left() - read,
            final(self).pending_transfer() is Some ==> {
                &&& final(self).spec_to_target() == (old(self).spec_to_target() && write_ok)
                &&& final(self).owed() == old(self).owed() - read
            },
            final(self).spec_pid() == old(self).spec_pid(),
            final(self).spec_target_pid() == old(self).spec_target_pid(),
            final(self).payloads().len() == old(self).payloads().len() + if final(self).pending_transfer() is None {
                1int
            } else {
                0
            },
            final(self).pending_transfer() is None ==> (final(self).is_done() <==> final(self).payloads().len()
                == final(self).header().num_allocations),
            final(self).pending_transfer() is None && !final(self).is_done() ==> final(self).pending_allocation_header(),
            final(self).measure() < old(self).measure(),
    {
        if read == 0 {
            self.complete = Ghost(false);
            self.finish_allocation();
            return;
        }
        if !write_ok {
            self.to_target = false;
        }
        self.consumed = self.consumed + read as u64;
        self.remaining = self.remaining - read as u64;
        self.file_left = self.file_left - read as u64;
        self.current_read = Ghost(self.current_read@ + read);
        if self.remaining == 0 {
            self.finish_allocation();
        } else if self.file_left == 0 {
            self.complete = Ghost(false);
            self.finish_allocation();
        }
    }

    fn finish_allocation(&mut self)
        requires
            old(self).wf_core(),
            old(self).stage is OpenTarget || old(self).stage is Payload,
            old(self).remaining == 0 || !old(self).complete@,
        ensures
            final(self).wf(),
            final(self).payloads@ == old(self).payloads@.push(old(self).current_read@),
            final(self).entries@ == old(self).entries@,
            final(self).header_bytes@ == old(self).header_bytes@,
            final(self).header == old(self).header,
            final(self).complete@ == old(self).complete@,
            final(self).consumed == old(self).consumed,
            final(self).pid == old(self).pid,
            final(self).target_pid == old(self).target_pid,
            final(self).file_left == old(self).file_left,
            !(final(self).stage is Payload),
            final(self).measure() < (old(self).header.num_allocations - old(self).index - 1) * STEP_SPAN as int + 1,
            final(self).is_done() <==> final(self).payloads@.len() == final(self).header.num_allocations,
            !final(self).is_done() ==> final(self).pending_allocation_header(),
    {
        let ghost before = self.payloads@;
        let ghost e = self.entries@;
        self.payloads = Ghost(self.payloads@.push(self.current_read@));
        self.current_read = Ghost(0);
        self.index = self.index + 1;
        self.remaining = 0;
        if self.index == self.header.num_allocations {
            self.stage = ReaderStage::Finished;
        } else {
            self.stage = ReaderStage::AllocationHeader;
        }
        proof {
            let p = self.payloads@;
            assert(p.drop_last() =~= before);
            assert forall|i: int| 0 <= i < p.len() implies 0 <= #[trigger] p[i] <= e[i].size by {
                if i < before.len() {
                    assert(p[i] == before[i]);
                }
            }
            if self.complete@ {
                assert forall|i: int| 0 <= i < p.len() implies #[trigger] p[i] == e[i].size by {
                    if i < before.len() {
                        assert(p[i] == before[i]);
                    }
                }
            }
        }
    }

    /// The process restored into.
    pub fn pid(&self) -> (r: u32)
        ensures
            r == self.spec_pid(),
    {
        self.pid
    }

    /// Payload bytes consumed from the file so far.
    pub fn consumed(&self) -> (r: u64)
        ensures
            r == self.spec_consumed(),
    {
        self.consumed
    }

    /// The summary of a finished restore that took `duration_ms`.
    pub fn metadata(&self, duration_ms: u64) -> (r: RestoreMetadata)
        requires
            self.wf(),
            self.is_done(),
        ensures
            r.pid == self.spec_pid(),
            r.num_allocations == self.header().num_allocations,
            r.total_size == self.spec_consumed(),
            r.duration_ms == duration_ms,
    {
        RestoreMetadata {
            pid: self.pid,
            num_allocations: self.header.num_allocations as usize,
            total_size: self.consumed,
            duration_ms,
        }
    }
}

/// What a finished reader read: a valid header, as many allocations as it
/// announced, and every payload whole when no read came up short.
pub proof fn lemma_reader_finished(r: &RestoreReader)
    requires
        r.wf(),
        r.is_done(),
    ensures
        r.header_bytes() == r.header().spec_bytes(),
        header_valid(r.header()),
        r.payloads().len() == r.entries().len() == r.header().num_allocations,
        r.spec_consumed() == sum(r.payloads()),
        r.complete() ==> r.payloads() == entry_sizes(r.entries()),
        r.spec_pid() == match r.spec_target_pid() {
            Some(t) => t,
            None => r.header().pid,
        },
{
    if r.complete@ {
        assert(r.payloads@ =~= entry_sizes(r.entries@));
    }
}

/// Whether two images can describe the same file: the first is no longer,
/// and wherever both know a byte it is the same byte.
pub open spec fn images_agree(a: Seq<Option<u8>>, b: Seq<Option<u8>>) -> bool {
    a.len() <= b.len() && forall|i: int|
        0 <= i < a.len() && a[i] is Some && b[i] is Some ==> #[trigger] a[i] == b[i]
}

proof fn lemma_image_prefix(header: Seq<u8>, e: Seq<AllocationHeader>, p: Seq<int>, k: int)
    requires
        e.len() == p.len(),
        0 <= k <= e.len(),
        forall|i: int| 0 <= i < p.len() ==> p[i] >= 0,
    ensures
        file_image(header, e.take(k), p.take(k)).len() <= file_image(header, e, p).len(),
        forall|i: int|
            0 <= i < file_image(header, e.take(k), p.take(k)).len() ==> #[trigger] file_image(
                header,
                e.take(k),
                p.take(k),
            )[i] == file_image(header, e, p)[i],
    decreases e.len(),
{
    if k == e.len() {
        assert(e.take(k) =~= e);
        assert(p.take(k) =~= p);
    } else {
        let e1 = e.drop_last();
        let p1 = p.drop_last();
        assert(e1.take(k) =~= e.take(k));
        assert(p1.take(k) =~= p.take(k));
        lemma_image_prefix(header, e1, p1, k);
        let a = file_image(header, e1, p1);
        assert(file_image(header, e, p) == a + known(e.last().spec_bytes()) + unknown(p.last()));
        assert forall|i: int| 0 <= i < a.len() implies #[trigger] file_image(header, e, p)[i] == a[i] by {}
    }
}

proof fn lemma_image_header(header: Seq<u8>, e: Seq<AllocationHeader>, p: Seq<int>)
    requires
        e.len() == p.len(),
        forall|i: int| 0 <= i < p.len() ==> p[i] >= 0,
    ensures
        file_image(header, e, p).len() >= header.len(),
        forall|i: int| 0 <= i < header.len() ==> #[trigger] file_image(header, e, p)[i] == Some(header[i]),
{
    lemma_image_prefix(header, e, p, 0);
    assert(e.take(0) =~= Seq::<AllocationHeader>::empty());
    let front = file_image(header, e.take(0), p.take(0));
    assert(front == known(header));
    assert forall|i: int| 0 <= i < header.len() implies #[trigger] file_image(header, e, p)[i] == Some(header[i]) by {
        assert(front[i] == file_image(header, e, p)[i]);
    }
}

/// A checkpoint round trip: a reader that finished on the file that a
/// writer for `detection` finished, with no copy or read coming up short,
/// restores exactly the writer's allocations, as many as the detection has,
/// into the target given or else the process checkpointed, and consumes the
/// sum of their sizes, whether or not the target's memory took the bytes.
pub proof fn lemma_round_trip(detection: &DetectionResult, w: &CheckpointWriter, r: &RestoreReader)
    requires
        w.entries() == allocation_headers(detection.allocations@),
        w.wf(),
        w.is_done(),
        w.complete(),
        r.wf(),
        r.is_done(),
        r.complete(),
        images_agree(file_image(r.header_bytes(), r.entries(), r.payloads()), w.image()),
    ensures
        r.header() == w.header(),
        r.header().num_allocations == w.entries().len(),
        r.entries() == w.entries(),
        r.spec_consumed() == entry_total(w.entries()),
        r.header().num_allocations == detection.allocations@.len(),
        r.spec_consumed() == total_size(alloc_views(detection.allocations@)),
        r.spec_pid() == match r.spec_target_pid() {
            Some(t) => t,
            None => w.header().pid,
        },
{
    lemma_checkpoint_file_length(w);
    lemma_allocation_headers_total(detection.allocations@);
    lemma_writer_finished(w);
    lemma_reader_finished(r);
    let hw = w.header().spec_bytes();
    let hr = r.header_bytes();
    let ew = w.entries();
    let er = r.entries();
    let pw = w.payloads();
    let pr = r.payloads();
    let imw = file_image(hw, ew, pw);
    let imr = file_image(hr, er, pr);
    lemma_auto_spec_lens();
    assert(hr.len() == 32);
    assert(hw.len() == 32);
    lemma_image_header(hw, ew, pw);
    lemma_image_header(hr, er, pr);
    assert forall|i: int| 0 <= i < 32 implies hr[i] == hw[i] by {
        assert(imr[i] == Some(hr[i]));
        assert(imw[i] == Some(hw[i]));
    }
    assert(hr =~= hw);
    lemma_header_bytes_injective(r.header(), w.header());
    assert(er.take(0) =~= ew.take(0));
    lemma_entries_align(hw, er, pr, ew, pw, 0);
    lemma_entry_total_is_sum(ew);
}

/// Where two agreeing images share their first `k` allocations, the next
/// allocation header sits at the same place in both, so they share it too;
/// on to the end.
proof fn lemma_entries_align(
    h: Seq<u8>,
    er: Seq<AllocationHeader>,
    pr: Seq<int>,
    ew: Seq<AllocationHeader>,
    pw: Seq<int>,
    k: int,
)
    requires
        0 <= k <= er.len(),
        er.len() == ew.len() == pr.len() == pw.len(),
        er.take(k) == ew.take(k),
        pr == entry_sizes(er),
        pw == entry_sizes(ew),
        images_agree(file_image(h, er, pr), file_image(h, ew, pw)),
    ensures
        er == ew,
    decreases er.len() - k,
{
    let n = er.len() as int;
    if k == n {
        assert(er.take(n) =~= er);
        assert(ew.take(n) =~= ew);
        return;
    }
    let imr = file_image(h, er, pr);
    let imw = file_image(h, ew, pw);
    lemma_auto_spec_lens();
    assert forall|i: int| 0 <= i < pr.len() implies pr[i] >= 0 by {}
    assert forall|i: int| 0 <= i < pw.len() implies pw[i] >= 0 by {}
    lemma_image_prefix(h, er, pr, k + 1);
    lemma_image_prefix(h, ew, pw, k + 1);
    assert(pr.take(k) =~= entry_sizes(er.take(k)));
    assert(pw.take(k) =~= entry_sizes(ew.take(k)));
    let base = file_image(h, er.take(k), pr.take(k));
    assert(base == file_image(h, ew.take(k), pw.take(k)));
    assert(er.take(k + 1).drop_last() =~= er.take(k));
    assert(ew.take(k + 1).drop_last() =~= ew.take(k));
    assert(pr.take(k + 1).drop_last() =~= pr.take(k));
    assert(pw.take(k + 1).drop_last() =~= pw.take(k));
    let ir = file_image(h, er.take(k + 1), pr.take(k + 1));
    let iw = file_image(h, ew.take(k + 1), pw.take(k + 1));
    assert(ir == base + known(er[k].spec_bytes()) + unknown(pr[k]));
    assert(iw == base + known(ew[k].spec_bytes()) + unknown(pw[k]));
    let br = er[k].spec_bytes();
    let bw = ew[k].spec_bytes();
    assert forall|j: int| 0 <= j < 32 implies br[j] == bw[j] by {
        let pos = base.len() + j;
        assert(ir[pos] == Some(br[j]));
        assert(iw[pos] == Some(bw[j]));
        assert(imr[pos] == ir[pos]);
        assert(imw[pos] == iw[pos]);
    }
    assert(br =~= bw);
    lemma_allocation_header_bytes_injective(er[k], ew[k]);
    assert(er.take(k + 1) =~= er.take(k).push(er[k]));
    assert(ew.take(k + 1) =~= ew.take(k).push(ew[k]));
    lemma_entries_align(h, er, pr, ew, pw, k + 1);
}

/// Header encodings are 32 bytes long.
proof fn lemma_auto_spec_lens()
    ensures
        forall|h: CheckpointHeader| #[trigger] h.spec_bytes().len() == 32,
        forall|h: AllocationHeader| #[trigger] h.spec_bytes().len() == 32,
{
    vstd::bytes::lemma_auto_spec_u32_to_from_le_bytes();
    vstd::bytes::lemma_auto_spec_u64_to_from_le_bytes();
}

} // verus!
