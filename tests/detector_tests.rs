use gpu_checkpoint::detector::{
    AllocationType, CompositeDetector, DetectionResult, FileDescriptor, GpuDeviceType,
    GpuVendor, MemoryMapParser, MemoryRegion, NvidiaDetector, ProcessScanner,
};
use gpu_checkpoint::GpuAllocation;
use gpu_checkpoint::GpuCheckpointError;

fn region(start: u64, end: u64, perms: &str, path: Option<&str>) -> MemoryRegion {
    MemoryRegion {
        start,
        end,
        perms: perms.to_string(),
        offset: 0,
        dev: "00:00".to_string(),
        inode: 0,
        pathname: path.map(|p| p.to_string()),
    }
}

#[test]
fn test_parse_maps_line() {
    let line = "7f1234567000-7f1234568000 rw-p 00000000 00:00 0 /dev/nvidia0";
    let region = MemoryMapParser::parse_line(line).unwrap();

    assert_eq!(region.start, 0x7f1234567000);
    assert_eq!(region.end, 0x7f1234568000);
    assert_eq!(region.perms, "rw-p");
    assert_eq!(region.pathname, Some("/dev/nvidia0".to_string()));
}

#[test]
fn parse_line_reads_every_field() {
    let line = "7f1234567000-7f1234568000 rw-p 00000000 00:00 0 /dev/nvidia0";
    let r = MemoryMapParser::parse_line(line).unwrap();
    assert_eq!(r.offset, 0);
    assert_eq!(r.dev, "00:00");
    assert_eq!(r.inode, 0);
}

#[test]
fn parse_line_joins_path_with_spaces() {
    let line = "1000-2000 r--s 0000abcd fd:01 123456   /tmp/a  b\tc";
    let r = MemoryMapParser::parse_line(line).unwrap();
    assert_eq!(r.offset, 0xabcd);
    assert_eq!(r.dev, "fd:01");
    assert_eq!(r.inode, 123456);
    assert_eq!(r.pathname, Some("/tmp/a b c".to_string()));
}

#[test]
fn parse_line_without_path() {
    let r = MemoryMapParser::parse_line("1000-2000 rw-p 00000000 00:00 0").unwrap();
    assert_eq!(r.pathname, None);
}

#[test]
fn parse_line_rejects_malformed() {
    assert!(MemoryMapParser::parse_line("").is_none());
    assert!(MemoryMapParser::parse_line("1000-2000 rw-p 0 00:00").is_none());
    assert!(MemoryMapParser::parse_line("1000 rw-p 0 00:00 0").is_none());
    assert!(MemoryMapParser::parse_line("1000-2000-3000 rw-p 0 00:00 0").is_none());
    assert!(MemoryMapParser::parse_line("1000-zz rw-p 0 00:00 0").is_none());
    assert!(MemoryMapParser::parse_line("1000-2000 rw-p 0 00:00 x1").is_none());
    assert!(MemoryMapParser::parse_line("2000-1000 rw-p 0 00:00 0").is_none());
    assert!(MemoryMapParser::parse_line("1-10000000000000000 rw-p 0 00:00 0").is_none());
}

#[test]
fn parse_line_accepts_plus_and_upper_hex() {
    let r = MemoryMapParser::parse_line("+AB-FF rw-p +10 00:00 +7").unwrap();
    assert_eq!(r.start, 0xab);
    assert_eq!(r.end, 0xff);
    assert_eq!(r.offset, 0x10);
    assert_eq!(r.inode, 7);
}

#[test]
fn test_classify_nvidia_uvm() {
    let region = MemoryRegion {
        start: 0x7f0000000000,
        end: 0x7f0001000000,
        perms: "rw-s".to_string(),
        offset: 0,
        dev: "00:00".to_string(),
        inode: 0,
        pathname: Some("/dev/nvidia-uvm".to_string()),
    };

    let allocation = MemoryMapParser::classify_region(&region).unwrap();
    assert_eq!(allocation.alloc_type, AllocationType::Uvm);
    assert_eq!(allocation.size, 0x1000000);
}

#[test]
fn classify_uvm_region_is_shared() {
    let r = region(0x7f0000000000, 0x7f0001000000, "rw-s", Some("/dev/nvidia-uvm"));
    let a = MemoryMapParser::classify_region(&r).unwrap();
    assert!(a.metadata.is_shared);
    assert_eq!(a.metadata.backing_file, Some("/dev/nvidia-uvm".to_string()));
    assert_eq!(a.metadata.protection, "rw-s");
}

#[test]
fn classify_region_rules_in_order() {
    let std_dev = MemoryMapParser::classify_region(&region(0, 0x1000, "rw-p", Some("/dev/nvidia0"))).unwrap();
    assert_eq!(std_dev.alloc_type, AllocationType::Standard);
    assert!(!std_dev.metadata.is_shared);

    let managed = MemoryMapParser::classify_region(&region(0, 0x1000, "rw-p", Some("[anon:cuda_heap]"))).unwrap();
    assert_eq!(managed.alloc_type, AllocationType::Managed);

    let ipc = MemoryMapParser::classify_region(&region(0, 0x1000, "rw-s", Some("/dev/shm/cuda.shm.1"))).unwrap();
    assert_eq!(ipc.alloc_type, AllocationType::Ipc);
    assert!(ipc.metadata.is_shared);
    assert!(!ipc.metadata.is_distributed);

    let dist = MemoryMapParser::classify_region(&region(0, 0x1000, "rw-s", Some("/dev/shm/nccl-abc"))).unwrap();
    assert_eq!(dist.alloc_type, AllocationType::Distributed);
    assert!(dist.metadata.is_distributed);

    let bar = MemoryMapParser::classify_region(&region(0, 0x1000, "rw-s", Some("/sys/bus/pci/devices/0000:01:00.1/resource1"))).unwrap();
    assert_eq!(bar.alloc_type, AllocationType::BarMapped);

    let heap = MemoryMapParser::classify_region(&region(0, 64 * 1024 * 1024, "rw-p", Some("[heap]"))).unwrap();
    assert_eq!(heap.alloc_type, AllocationType::Unknown);

    assert!(MemoryMapParser::classify_region(&region(0, 64 * 1024 * 1024 - 1, "rw-p", Some("[heap]"))).is_none());
    assert!(MemoryMapParser::classify_region(&region(0, 0x1000, "r-xp", Some("/usr/lib/libc.so.6"))).is_none());
    assert!(MemoryMapParser::classify_region(&region(0, 0x1000, "rw-p", None)).is_none());
    assert!(MemoryMapParser::classify_region(&region(0, 0x1000, "rw-p", Some("/tmp/dev/nvidia0"))).is_none());
}

#[test]
fn test_nvidia_detector_creation() {
    let detector = NvidiaDetector::new();
    assert_eq!(detector.get_vendor(), GpuVendor::Nvidia);
}

#[test]
fn test_classify_nvidia_fd() {
    let fd = FileDescriptor { fd: 10, target: "/dev/nvidia0".to_string() };

    let info = ProcessScanner::classify_fd(&fd).unwrap();
    assert_eq!(info.device_type, GpuDeviceType::NvidiaDevice);
    assert_eq!(info.device_id, Some(0));
}

#[test]
fn test_classify_nvidia_uvm_fd() {
    let fd = FileDescriptor { fd: 11, target: "/dev/nvidia-uvm".to_string() };

    let info = ProcessScanner::classify_fd(&fd).unwrap();
    assert_eq!(info.device_type, GpuDeviceType::NvidiaUvm);
}

#[test]
fn classify_fd_kinds() {
    let c = |t: &str| ProcessScanner::classify_fd(&FileDescriptor { fd: 3, target: t.to_string() });
    let dev = c("/dev/nvidia12").unwrap();
    assert_eq!(dev.device_id, Some(12));
    assert_eq!(dev.fd, 3);
    assert_eq!(dev.path, "/dev/nvidia12");
    assert_eq!(c("/dev/nvidiactl").unwrap().device_type, GpuDeviceType::NvidiaControl);
    let other = c("/dev/nvidia-modeset").unwrap();
    assert_eq!(other.device_type, GpuDeviceType::Unknown);
    assert_eq!(other.device_id, None);
    assert_eq!(c("/dev/dri/renderD128").unwrap().device_type, GpuDeviceType::AmdGpu);
    assert_eq!(c("/dev/kfd").unwrap().device_type, GpuDeviceType::AmdGpu);
    assert_eq!(c("/dev/shm/cuda.1").unwrap().device_type, GpuDeviceType::SharedMemory);
    assert!(c("/dev/shm/other").is_none());
    assert!(c("/dev/null").is_none());
    let huge = c("/dev/nvidia99999999999").unwrap();
    assert_eq!(huge.device_type, GpuDeviceType::NvidiaDevice);
    assert_eq!(huge.device_id, None);
}

#[test]
fn classify_fd_with_given_digits() {
    let fd = FileDescriptor { fd: 4, target: "/dev/nvidia7".to_string() };
    let info = ProcessScanner::classify_fd_with_digits(&fd, Some("7".to_string())).unwrap();
    assert_eq!(info.device_type, GpuDeviceType::NvidiaDevice);
    assert_eq!(info.device_id, Some(7));
    let none = ProcessScanner::classify_fd_with_digits(&fd, None).unwrap();
    assert_eq!(none.device_type, GpuDeviceType::Unknown);
}

#[test]
fn gpu_environment_rules() {
    let env = |k: &str, v: &str| vec![(k.to_string(), v.to_string())];
    assert!(ProcessScanner::has_gpu_environment(&env("CUDA_VISIBLE_DEVICES", "0")));
    assert!(ProcessScanner::has_gpu_environment(&env("MY_HIP_VISIBLE_DEVICES", "")));
    assert!(ProcessScanner::has_gpu_environment(&env("LD_LIBRARY_PATH", "/usr/local/cuda/lib64")));
    assert!(!ProcessScanner::has_gpu_environment(&env("LD_LIBRARY_PATH", "/usr/lib")));
    assert!(!ProcessScanner::has_gpu_environment(&env("PATH", "/usr/local/cuda/bin")));
    assert!(!ProcessScanner::has_gpu_environment(&Vec::new()));
}

#[test]
fn environ_and_cmdline_parsing() {
    let vars = ProcessScanner::parse_environ("A=1\0B=x=y\0NOEQ\0\0C=");
    assert_eq!(
        vars,
        vec![
            ("A".to_string(), "1".to_string()),
            ("B".to_string(), "x=y".to_string()),
            ("C".to_string(), "".to_string()),
        ]
    );
    assert_eq!(ProcessScanner::format_cmdline("python\0train.py\0--gpu\0"), "python train.py --gpu");
    assert_eq!(ProcessScanner::format_cmdline("\0\0"), "");
}

#[test]
fn nvidia_scans_in_order() {
    let regions = vec![
        region(0x1000, 0x3000, "rw-s", Some("/dev/nvidia-uvm")),
        region(0x3000, 0x4000, "rw-p", Some("[anon:cuda]")),
        region(0x4000, 0x6000, "rw-s", Some("/dev/shm/nccl-1")),
        region(0x6000, 0x7000, "rw-s", Some("/sys/bus/pci/devices/0000:01:00.0/resource1")),
        region(0x7000, 0x8000, "rw-s", Some("/sys/bus/pci/devices/0000:01:00.1/resource1")),
        region(0x8000, 0x9000, "r-xp", Some("/usr/lib/libc.so")),
    ];
    let d = NvidiaDetector::new();
    let fds = NvidiaDetector::nvidia_fds(&vec![
        FileDescriptor { fd: 5, target: "/dev/nvidiactl".to_string() },
        FileDescriptor { fd: 6, target: "/dev/dri/card0".to_string() },
    ]);
    assert_eq!(fds.len(), 1);
    let result = d.detect_in(42, &regions, &fds, false).unwrap();
    let types: Vec<AllocationType> = result.allocations.iter().map(|a| a.alloc_type).collect();
    assert_eq!(
        types,
        vec![AllocationType::Uvm, AllocationType::Managed, AllocationType::Distributed, AllocationType::BarMapped]
    );
    assert_eq!(result.total_gpu_memory, 0x2000 + 0x1000 + 0x2000 + 0x1000);
    assert_eq!(result.stats.uvm_allocations, 1);
    assert_eq!(result.stats.distributed_allocations, 1);
    assert_eq!(result.stats.largest_allocation, 0x2000);

    let quiet = d.detect_in(42, &regions, &Vec::new(), false).unwrap();
    assert!(quiet.allocations.is_empty());
    let by_env = d.detect_in(42, &regions, &Vec::new(), true).unwrap();
    assert_eq!(by_env.allocations.len(), 4);
}

#[test]
fn detection_overflow_is_an_error() {
    let regions = vec![
        region(0, u64::MAX, "rw-s", Some("/dev/nvidia-uvm")),
        region(0, 2, "rw-s", Some("/dev/nvidia-uvm")),
    ];
    let r = NvidiaDetector::new().detect_in(1, &regions, &Vec::new(), true);
    assert!(matches!(r, Err(GpuCheckpointError::DetectionError(_))));
}

#[test]
fn detection_result_keeps_totals() {
    let mut r = DetectionResult::new(7, GpuVendor::Amd);
    assert_eq!(r.total_gpu_memory, 0);
    assert_eq!(r.stats.largest_allocation, 0);
    r.add_allocation(GpuAllocation::new(0x1000, 0x3000, AllocationType::Ipc));
    r.add_allocation(GpuAllocation::new(0x5000, 0x6000, AllocationType::BarMapped));
    r.add_allocation(GpuAllocation::new(0x9000, 0x9000, AllocationType::Ipc));
    assert_eq!(r.total_gpu_memory, 0x3000);
    assert_eq!(r.stats.total_size, 0x3000);
    assert_eq!(r.stats.largest_allocation, 0x2000);
    assert_eq!(r.stats.ipc_allocations, 2);
    assert_eq!(r.stats.standard_allocations, 0);
    assert_eq!(r.allocations.len(), 3);
    assert_eq!(r.pid, 7);
    assert_eq!(r.vendor, GpuVendor::Amd);
}

#[test]
fn test_allocation_classification() {
    let standard = GpuAllocation::new(0x1000, 0x2000, AllocationType::Standard);
    assert!(!standard.is_problematic());

    let uvm = GpuAllocation::new(0x1000, 0x2000, AllocationType::Uvm);
    assert!(uvm.is_problematic());

    let managed = GpuAllocation::new(0x1000, 0x2000, AllocationType::Managed);
    assert!(managed.is_problematic());

    let ipc = GpuAllocation::new(0x1000, 0x2000, AllocationType::Ipc);
    assert!(ipc.is_problematic());

    let distributed = GpuAllocation::new(0x1000, 0x2000, AllocationType::Distributed);
    assert!(distributed.is_problematic());
}

#[test]
fn allocation_size_and_other_types() {
    let a = GpuAllocation::new(0x100000000, 0x200000000, AllocationType::BarMapped);
    assert_eq!(a.size, 0x100000000);
    assert!(!a.is_problematic());
    assert!(!GpuAllocation::new(1, 2, AllocationType::HostPinned).is_problematic());
    assert!(!GpuAllocation::new(1, 2, AllocationType::Unknown).is_problematic());
    assert_eq!(AllocationType::BarMapped.name(), "BAR-Mapped");
    assert_eq!(GpuVendor::Nvidia.name(), "NVIDIA");
}

#[test]
fn test_composite_detector_no_gpu() {
    let detector = CompositeDetector::new(false);
    assert!(detector.vendors().is_empty());
    let results = detector.detect_all(Vec::new()).expect("Detection should not fail");
    assert!(results.is_empty() || results.iter().all(|r| r.allocations.is_empty()));
}

#[test]
fn composite_detector_keeps_successes() {
    let detector = CompositeDetector::new(true);
    assert_eq!(detector.vendors(), vec![GpuVendor::Nvidia]);
    let outcomes = vec![
        Err(GpuCheckpointError::PermissionDenied),
        Ok(DetectionResult::new(9, GpuVendor::Nvidia)),
    ];
    let results = detector.detect_all(outcomes).unwrap();
    assert_eq!(results.len(), 1);
    assert_eq!(results[0].pid, 9);
}

#[test]
fn parse_lines_keeps_good_lines() {
    let lines = vec![
        "1000-2000 rw-p 00000000 00:00 0 /dev/nvidia-uvm".to_string(),
        "garbage".to_string(),
        "3000-4000 r--p 00000000 00:00 0".to_string(),
    ];
    let regions = MemoryMapParser::parse_lines(&lines);
    assert_eq!(regions.len(), 2);
    assert_eq!(regions[0].start, 0x1000);
    assert_eq!(regions[1].end, 0x4000);
}
