use gpu_checkpoint::checkpoint::bar_sliding::{
    AllocationHeader, BarSlidingCheckpoint, CheckpointHeader, CheckpointStep, CHECKPOINT_MAGIC,
    CHECKPOINT_VERSION,
};
use gpu_checkpoint::checkpoint::{CheckpointEngine, CheckpointStrategy};
use gpu_checkpoint::detector::{AllocationType, DetectionResult, GpuAllocation, GpuVendor};
use gpu_checkpoint::restore::bar_restore::{BarRestore, RestoreMetadata, RestoreStep};
use gpu_checkpoint::GpuCheckpointError;

/// Drives a checkpoint writer into a byte vector. Payload bytes come from
/// `source(vaddr)`, which gives the bytes readable at an address (an empty
/// vector when the memory is not there: zeros are written instead).
fn write_checkpoint(
    checkpoint: &BarSlidingCheckpoint,
    pid: u32,
    detection: &DetectionResult,
    memory: Option<&dyn Fn(u64) -> Vec<u8>>,
) -> (Vec<u8>, u64, usize, Vec<usize>) {
    let mut w = checkpoint.writer(pid, detection).unwrap();
    let mut file = Vec::new();
    let mut windows = Vec::new();
    let mut source: Vec<u8> = Vec::new();
    let mut pos = 0usize;
    loop {
        match w.next_step() {
            CheckpointStep::Write(bytes) => {
                file.extend_from_slice(&bytes);
                w.wrote();
            }
            CheckpointStep::OpenPayload { vaddr, size } => {
                source = match memory {
                    Some(m) => m(vaddr),
                    None => vec![0u8; size as usize],
                };
                pos = 0;
                w.opened();
            }
            CheckpointStep::Copy { len } => {
                windows.push(len);
                let n = len.min(source.len() - pos);
                file.extend_from_slice(&source[pos..pos + n]);
                pos += n;
                w.copied(n);
            }
            CheckpointStep::Done => break,
        }
    }
    let size = w.size_bytes();
    let n = w.num_allocations();
    (file, size, n, windows)
}

/// Drives a restore reader over `file`; `writable` says whether the target
/// memory takes writes. Returns the metadata and the bytes written to memory.
fn restore_checkpoint(
    file: &[u8],
    target: Option<u32>,
    writable: bool,
) -> Result<(RestoreMetadata, Vec<(u64, Vec<u8>)>), GpuCheckpointError> {
    let restore = BarRestore::new();
    let mut r = restore.reader(target, file.len() as u64);
    let mut pos = 0usize;
    let mut memory: Vec<(u64, Vec<u8>)> = Vec::new();
    loop {
        match r.next_step() {
            RestoreStep::ReadHeader => {
                let b = &file[pos..pos + 32];
                pos += 32;
                r.header_read(b)?;
            }
            RestoreStep::ReadAllocationHeader => {
                let b = &file[pos..pos + 32];
                pos += 32;
                r.allocation_header_read(b);
            }
            RestoreStep::OpenTarget { vaddr, .. } => {
                if writable {
                    memory.push((vaddr, Vec::new()));
                }
                r.target_opened(writable);
            }
            RestoreStep::Transfer { len, to_target } => {
                let n = len.min(file.len() - pos);
                if to_target {
                    memory.last_mut().unwrap().1.extend_from_slice(&file[pos..pos + n]);
                }
                pos += n;
                r.transferred(n, true);
            }
            RestoreStep::Done => break,
        }
    }
    Ok((r.metadata(0), memory))
}

fn detection_with(allocs: &[(u64, u64, AllocationType)]) -> DetectionResult {
    let mut d = DetectionResult::new(1234, GpuVendor::Nvidia);
    for &(s, e, t) in allocs {
        d.add_allocation(GpuAllocation::new(s, e, t));
    }
    d
}

#[test]
fn test_strategy_selection() {
    let empty_result = DetectionResult::new(1234, GpuVendor::Nvidia);
    assert_eq!(CheckpointEngine::select_strategy(&empty_result), CheckpointStrategy::SkipGpu);

    let mut standard_result = DetectionResult::new(1234, GpuVendor::Nvidia);
    standard_result.add_allocation(GpuAllocation::new(0x100000000, 0x200000000, AllocationType::Standard));
    assert_eq!(
        CheckpointEngine::select_strategy(&standard_result),
        CheckpointStrategy::CudaCheckpoint
    );

    let mut problematic_result = DetectionResult::new(1234, GpuVendor::Nvidia);
    problematic_result.add_allocation(GpuAllocation::new(0x100000000, 0x200000000, AllocationType::Uvm));
    assert_eq!(
        CheckpointEngine::select_strategy(&problematic_result),
        CheckpointStrategy::BarSliding
    );
}

#[test]
fn strategy_with_mixed_allocations() {
    let d = detection_with(&[(0, 0x1000, AllocationType::Standard), (0x1000, 0x2000, AllocationType::Ipc)]);
    assert_eq!(CheckpointEngine::select_strategy(&d), CheckpointStrategy::BarSliding);
    let d = detection_with(&[(0, 0x1000, AllocationType::BarMapped)]);
    assert_eq!(CheckpointEngine::select_strategy(&d), CheckpointStrategy::CudaCheckpoint);
}

#[test]
fn test_checkpoint_header_serialization() {
    let header = CheckpointHeader {
        magic: CHECKPOINT_MAGIC,
        version: CHECKPOINT_VERSION,
        pid: 1234,
        num_allocations: 2,
        total_size: 1024 * 1024,
        timestamp: 1234567890,
    };
    let bytes = header.to_bytes();
    assert_eq!(bytes.len(), 32);
}

#[test]
fn header_bytes_are_little_endian() {
    let header = CheckpointHeader {
        magic: CHECKPOINT_MAGIC,
        version: CHECKPOINT_VERSION,
        pid: 0x01020304,
        num_allocations: 5,
        total_size: 0x1122334455667788,
        timestamp: 9,
    };
    let bytes = header.to_bytes();
    assert_eq!(&bytes[0..4], b"CUPG");
    assert_eq!(&bytes[4..8], &[1, 0, 0, 0]);
    assert_eq!(&bytes[8..12], &[4, 3, 2, 1]);
    assert_eq!(&bytes[16..24], &[0x88, 0x77, 0x66, 0x55, 0x44, 0x33, 0x22, 0x11]);
    assert_eq!(CheckpointHeader::from_bytes(&bytes), header);

    let entry = AllocationHeader { vaddr_start: 1, vaddr_end: 0x101, size: 0x100, device_id: 3, flags: 0 };
    let eb = entry.to_bytes();
    assert_eq!(eb.len(), 32);
    assert_eq!(&eb[16..24], &[0, 1, 0, 0, 0, 0, 0, 0]);
    assert_eq!(AllocationHeader::from_bytes(&eb), entry);
}

#[test]
fn allocation_header_records_device() {
    let mut a = GpuAllocation::new(0x10, 0x30, AllocationType::Standard);
    assert_eq!(AllocationHeader::from_allocation(&a).device_id, 0);
    a.device_id = Some(2);
    let h = AllocationHeader::from_allocation(&a);
    assert_eq!(h, AllocationHeader { vaddr_start: 0x10, vaddr_end: 0x30, size: 0x20, device_id: 2, flags: 0 });
}

#[test]
fn empty_detection_gives_header_only_file() {
    let d = DetectionResult::new(1234, GpuVendor::Nvidia);
    assert_eq!(CheckpointEngine::select_strategy(&d), CheckpointStrategy::SkipGpu);
    let (file, size, n, _) = write_checkpoint(&BarSlidingCheckpoint::new(), 1234, &d, None);
    assert_eq!(file.len(), 32);
    assert_eq!(size, 0);
    assert_eq!(n, 0);
    assert_eq!(&file[0..4], &0x47505543u32.to_le_bytes());
    assert_eq!(&file[4..8], &1u32.to_le_bytes());
    assert_eq!(&file[8..12], &1234u32.to_le_bytes());
    assert_eq!(&file[12..16], &[0, 0, 0, 0]);
    let (meta, _) = restore_checkpoint(&file, None, false).unwrap();
    assert_eq!(meta.num_allocations, 0);
    assert_eq!(meta.total_size, 0);
    assert_eq!(meta.pid, 1234);
}

#[test]
fn zero_byte_allocation_has_no_payload() {
    let d = detection_with(&[(0x5000, 0x5000, AllocationType::Standard)]);
    let (file, size, n, windows) = write_checkpoint(&BarSlidingCheckpoint::new(), 1, &d, None);
    assert_eq!(file.len(), 64);
    assert_eq!(size, 0);
    assert_eq!(n, 1);
    assert!(windows.is_empty());
}

#[test]
fn windows_cover_exactly_the_size() {
    for (window, expect) in [(4096usize, vec![4096usize]), (1000, vec![1000, 1000, 1000, 1000, 96]), (10000, vec![4096])] {
        let d = detection_with(&[(0x1000, 0x2000, AllocationType::Uvm)]);
        let cp = BarSlidingCheckpoint::new().with_window_size(window);
        assert_eq!(cp.window_size(), window);
        let (file, size, _, windows) = write_checkpoint(&cp, 1, &d, None);
        assert_eq!(windows, expect);
        assert_eq!(file.len(), 32 + 32 + 4096);
        assert_eq!(size, 4096);
    }
}

#[test]
fn memory_payload_is_copied_in_order() {
    let d = detection_with(&[(0x10, 0x14, AllocationType::Uvm), (0x20, 0x23, AllocationType::Ipc)]);
    let mem = |vaddr: u64| -> Vec<u8> { (0..8u8).map(|i| vaddr as u8 + i).collect() };
    let cp = BarSlidingCheckpoint::new().with_window_size(2);
    let (file, size, _, _) = write_checkpoint(&cp, 1, &d, Some(&mem));
    assert_eq!(size, 7);
    assert_eq!(file.len(), 32 + 32 + 4 + 32 + 3);
    assert_eq!(&file[64..68], &[0x10, 0x11, 0x12, 0x13]);
    assert_eq!(&file[100..103], &[0x20, 0x21, 0x22]);
    let (meta, written) = restore_checkpoint(&file, Some(99), true).unwrap();
    assert_eq!(meta.pid, 99);
    assert_eq!(meta.num_allocations, 2);
    assert_eq!(meta.total_size, 7);
    assert_eq!(written, vec![(0x10, vec![0x10, 0x11, 0x12, 0x13]), (0x20, vec![0x20, 0x21, 0x22])]);
}

#[test]
fn short_read_truncates_the_payload() {
    let d = detection_with(&[(0x10, 0x20, AllocationType::Uvm)]);
    let mem = |_vaddr: u64| -> Vec<u8> { vec![7u8; 5] };
    let (file, size, _, _) = write_checkpoint(&BarSlidingCheckpoint::new(), 1, &d, Some(&mem));
    assert_eq!(file.len(), 32 + 32 + 5);
    assert_eq!(size, 16);
}

#[test]
fn test_checkpoint_restore_roundtrip() {
    let mut detection = DetectionResult::new(1234, GpuVendor::Nvidia);
    detection.add_allocation(GpuAllocation::new(0x100000, 0x200000, AllocationType::Standard));

    let checkpoint = BarSlidingCheckpoint::new();
    let (file, size_bytes, num_allocations, _) = write_checkpoint(&checkpoint, 1234, &detection, None);
    assert_eq!(num_allocations, 1);

    let (restore_metadata, _) = restore_checkpoint(&file, Some(5678), false).unwrap();
    assert_eq!(restore_metadata.num_allocations, 1);
    assert_eq!(restore_metadata.total_size, size_bytes);
}

#[test]
fn restore_degraded_and_writable_agree() {
    let d = detection_with(&[(0x1000, 0x1800, AllocationType::Standard), (0x9000, 0x9100, AllocationType::Managed)]);
    let (file, size, _, _) = write_checkpoint(&BarSlidingCheckpoint::new(), 1234, &d, None);
    let (a, _) = restore_checkpoint(&file, Some(5678), false).unwrap();
    let (b, _) = restore_checkpoint(&file, Some(5678), true).unwrap();
    assert_eq!(a.num_allocations, 2);
    assert_eq!(a.total_size, 0x900);
    assert_eq!(b.total_size, size);
}

#[test]
fn restore_skips_after_failed_write() {
    let d = detection_with(&[(0x1000, 0x1010, AllocationType::Uvm), (0x2000, 0x2004, AllocationType::Uvm)]);
    let (file, _, _, _) = write_checkpoint(&BarSlidingCheckpoint::new(), 1, &d, None);
    let restore = BarRestore::new();
    let mut r = restore.reader(None, file.len() as u64);
    let mut pos = 0usize;
    let mut to_target_seen = Vec::new();
    loop {
        match r.next_step() {
            RestoreStep::ReadHeader => {
                r.header_read(&file[pos..pos + 32]).unwrap();
                pos += 32;
            }
            RestoreStep::ReadAllocationHeader => {
                r.allocation_header_read(&file[pos..pos + 32]);
                pos += 32;
            }
            RestoreStep::OpenTarget { pid, .. } => {
                assert_eq!(pid, 1);
                r.target_opened(true);
            }
            RestoreStep::Transfer { len, to_target } => {
                to_target_seen.push(to_target);
                let n = len.min(3);
                pos += n;
                r.transferred(n, false);
            }
            RestoreStep::Done => break,
        }
    }
    let meta = r.metadata(5);
    assert_eq!(meta.total_size, 20);
    assert_eq!(meta.duration_ms, 5);
    assert_eq!(pos, file.len());
    assert_eq!(to_target_seen[0], true);
    assert!(to_target_seen[1..6].iter().all(|t| !t));
    assert_eq!(to_target_seen[6], true);
}

#[test]
fn restore_rejects_bad_magic_and_version() {
    let d = DetectionResult::new(1, GpuVendor::Nvidia);
    let (mut file, _, _, _) = write_checkpoint(&BarSlidingCheckpoint::new(), 1, &d, None);
    file[0..4].copy_from_slice(&[0, 0, 0, 0]);
    match restore_checkpoint(&file, None, false) {
        Err(GpuCheckpointError::RestoreError(msg)) => {
            assert_eq!(msg, "Invalid checkpoint magic: 0x00000000 (expected 0x47505543)")
        }
        other => panic!("unexpected {:?}", other.map(|(m, _)| m.num_allocations)),
    }
    let (mut file, _, _, _) = write_checkpoint(&BarSlidingCheckpoint::new(), 1, &d, None);
    file[4..8].copy_from_slice(&[2, 0, 0, 0]);
    match restore_checkpoint(&file, None, false) {
        Err(GpuCheckpointError::RestoreError(msg)) => {
            assert_eq!(msg, "Unsupported checkpoint version: 2 (expected 1)")
        }
        other => panic!("unexpected {:?}", other.map(|(m, _)| m.num_allocations)),
    }
    let restore = BarRestore::new();
    let good = CheckpointHeader { magic: CHECKPOINT_MAGIC, version: 1, pid: 1, num_allocations: 0, total_size: 0, timestamp: 0 };
    assert!(restore.validate_header(&good).is_ok());
    let bad = CheckpointHeader { version: 2, ..good };
    assert!(matches!(restore.validate_header(&bad), Err(GpuCheckpointError::RestoreError(_))));
}

#[test]
fn restore_clamps_to_file_length() {
    let d = detection_with(&[(0x1000, 0x1100, AllocationType::Uvm)]);
    let (mut file, _, _, _) = write_checkpoint(&BarSlidingCheckpoint::new(), 1, &d, None);
    // Claim a huge payload in the allocation header; the file holds 0x100 bytes.
    file[48..56].copy_from_slice(&u64::MAX.to_le_bytes());
    let restore = BarRestore::new();
    let mut r = restore.reader(Some(2), file.len() as u64);
    let mut pos = 0usize;
    let mut lens = Vec::new();
    loop {
        match r.next_step() {
            RestoreStep::ReadHeader => {
                r.header_read(&file[pos..pos + 32]).unwrap();
                pos += 32;
            }
            RestoreStep::ReadAllocationHeader => {
                r.allocation_header_read(&file[pos..pos + 32]);
                pos += 32;
            }
            RestoreStep::OpenTarget { pid, .. } => {
                assert_eq!(pid, 2);
                r.target_opened(false);
            }
            RestoreStep::Transfer { len, to_target } => {
                assert!(!to_target);
                lens.push(len);
                let n = len.min(file.len() - pos);
                pos += n;
                r.transferred(n, true);
            }
            RestoreStep::Done => break,
        }
    }
    assert_eq!(lens, vec![0x100]);
    assert_eq!(r.metadata(0).total_size, 0x100);
}
