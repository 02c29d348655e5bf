//! Classification of a process's open file descriptors and of its
//! environment, from what the procfs scan read.
use vstd::prelude::*;

use crate::text::{
    chars_of, contains, find_char, first_index, has_infix, has_prefix, is_trim_of,
    parse_unsigned, parse_unsigned_text, slice_chars, split_chars, split_on, starts_with,
    string_of, trim_chars,
};

verus! {

/// What the device-node pattern `/dev/nvidia(\d+)` captures in `target`: the
/// run of decimal digits (Unicode `\d`) after the leftmost `/dev/nvidia` that
/// is followed by one.
pub uninterp spec fn nvidia_index_digits(target: Seq<char>) -> Option<Seq<char>>;

/// Relies on `regex::Regex::new`, compiling the fixed pattern
/// `/dev/nvidia(\d+)`, and `Regex::captures`: the text of the first group of
/// the leftmost match, which depends on `target` alone.
#[verifier::external_body]
fn capture_nvidia_index(target: &str) -> (r: Option<String>)
    ensures
        match r {
            Some(d) => nvidia_index_digits(target@) == Some(d@),
            None => nvidia_index_digits(target@) is None,
        },
{
    let re = match regex::Regex::new(r"/dev/nvidia(\d+)") {
        Ok(re) => re,
        Err(_) => return None,
    };
    let captures = re.captures(target)?;
    Some(captures.get(1)?.as_str().to_string())
}

/// An open file descriptor of a process and the path its link resolves to.
#[derive(Debug)]
pub struct FileDescriptor {
    pub fd: i32,
    pub target: String,
}

#[derive(Debug, Clone, Copy, PartialEq, Eq, Structural)]
pub enum GpuDeviceType {
    NvidiaDevice,
    NvidiaControl,
    NvidiaUvm,
    AmdGpu,
    SharedMemory,
    Unknown,
}

/// A file descriptor recognised as GPU-related.
#[derive(Debug)]
pub struct GpuFdInfo {
    pub fd: i32,
    pub device_type: GpuDeviceType,
    pub device_id: Option<u32>,
    pub path: String,
}

/// The device type and device ID of a descriptor whose link points at
/// `target`, given the digits that the device-node pattern captured there.
/// NVIDIA nodes come first (UVM, control, numbered device, else unknown),
/// then AMD render and KFD nodes, then CUDA shared memory.
pub open spec fn spec_classify_target(target: Seq<char>, digits: Option<Seq<char>>) -> Option<
    (GpuDeviceType, Option<u32>),
> {
    if has_prefix(target, "/dev/nvidia"@) {
        if has_infix(target, "nvidia-uvm"@) {
            Some((GpuDeviceType::NvidiaUvm, None))
        } else if has_infix(target, "nvidiactl"@) {
            Some((GpuDeviceType::NvidiaControl, None))
        } else {
            match digits {
                Some(d) => Some(
                    (
                        GpuDeviceType::NvidiaDevice,
                        match parse_unsigned_text(d, 10, u32::MAX as int) {
                            Some(v) => Some(v as u32),
                            None => None,
                        },
                    ),
                ),
                None => Some((GpuDeviceType::Unknown, None)),
            }
        }
    } else if has_prefix(target, "/dev/dri/"@) || has_prefix(target, "/dev/kfd"@) {
        Some((GpuDeviceType::AmdGpu, None))
    } else if has_prefix(target, "/dev/shm/"@) && has_infix(target, "cuda"@) {
        Some((GpuDeviceType::SharedMemory, None))
    } else {
        None
    }
}

/// Whether the classification of `info` and `fd` agrees with `spec_classify_target`.
pub open spec fn classified_as(
    r: Option<GpuFdInfo>,
    fd: &FileDescriptor,
    digits: Option<Seq<char>>,
) -> bool {
    match r {
        Some(info) => spec_classify_target(fd.target@, digits) == Some(
            (info.device_type, info.device_id),
        ) && info.fd == fd.fd && info.path@ == fd.target@,
        None => spec_classify_target(fd.target@, digits) is None,
    }
}

/// Whether a device type is one of NVIDIA's nodes.
pub open spec fn is_nvidia_type(t: GpuDeviceType) -> bool {
    t is NvidiaDevice || t is NvidiaControl || t is NvidiaUvm
}

pub struct ProcessScanner;

impl ProcessScanner {
    /// Classifies `fd`, given the digits that the device-node pattern
    /// captured in its target (read only for numbered NVIDIA device nodes).
    pub fn classify_fd_with_digits(fd: &FileDescriptor, digits: Option<String>) -> (r: Option<GpuFdInfo>)
        ensures
            classified_as(r, fd, crate::detector::types::opt_chars(digits)),
    {
        let t = chars_of(fd.target.as_str());
        if starts_with(&t, "/dev/nvidia") {
            let device_type = if contains(&t, "nvidia-uvm") {
                GpuDeviceType::NvidiaUvm
            } else if contains(&t, "nvidiactl") {
                GpuDeviceType::NvidiaControl
            } else {
                match digits {
                    Some(d) => {
                        let dc = chars_of(d.as_str());
                        let device_id = match parse_unsigned(&dc, 10, u32::MAX as u64) {
                            Some(v) => Some(v as u32),
                            None => None,
                        };
                        return Some(
                            GpuFdInfo {
                                fd: fd.fd,
                                device_type: GpuDeviceType::NvidiaDevice,
                                device_id,
                                path: fd.target.clone(),
                            },
                        );
                    },
                    None => GpuDeviceType::Unknown,
                }
            };
            return Some(
                GpuFdInfo { fd: fd.fd, device_type, device_id: None, path: fd.target.clone() },
            );
        }
        if starts_with(&t, "/dev/dri/") || starts_with(&t, "/dev/kfd") {
            return Some(
                GpuFdInfo {
                    fd: fd.fd,
                    device_type: GpuDeviceType::AmdGpu,
                    device_id: None,
                    path: fd.target.clone(),
                },
            );
        }
        if starts_with(&t, "/dev/shm/") && contains(&t, "cuda") {
            return Some(
                GpuFdInfo {
                    fd: fd.fd,
                    device_type: GpuDeviceType::SharedMemory,
                    device_id: None,
                    path: fd.target.clone(),
                },
            );
        }
        None
    }

    /// Classifies `fd` by the path its link resolves to; numbered NVIDIA
    /// device nodes carry their index as device ID.
    pub fn classify_fd(fd: &FileDescriptor) -> (r: Option<GpuFdInfo>)
        ensures
            classified_as(r, fd, nvidia_index_digits(fd.target@)),
    {
        let t = chars_of(fd.target.as_str());
        let wants = starts_with(&t, "/dev/nvidia") && !contains(&t, "nvidia-uvm") && !contains(
            &t,
            "nvidiactl",
        );
        let digits = if wants {
            capture_nvidia_index(fd.target.as_str())
        } else {
            None
        };
        Self::classify_fd_with_digits(fd, digits)
    }
}

/// Whether an environment variable marks a GPU process: its key names one of
/// the device-selection variables (`CUDA_VISIBLE_DEVICES`,
/// `NVIDIA_VISIBLE_DEVICES`, `NVIDIA_DRIVER_CAPABILITIES`,
/// `ROCR_VISIBLE_DEVICES`, `HIP_VISIBLE_DEVICES`), or it is `LD_LIBRARY_PATH`
/// and its value mentions `cuda`, `nvidia` or `rocm`.
///
/// `LD_LIBRARY_PATH` is set in most environments, so its mere presence is
/// not taken as a sign of GPU use: only a library path that names a GPU
/// runtime counts.
pub open spec fn is_gpu_env_var(key: Seq<char>, value: Seq<char>) -> bool {
    has_infix(key, "CUDA_VISIBLE_DEVICES"@) || has_infix(key, "NVIDIA_VISIBLE_DEVICES"@)
        || has_infix(key, "NVIDIA_DRIVER_CAPABILITIES"@) || has_infix(key, "ROCR_VISIBLE_DEVICES"@)
        || has_infix(key, "HIP_VISIBLE_DEVICES"@) || (key == "LD_LIBRARY_PATH"@ && (has_infix(
        value,
        "cuda"@,
    ) || has_infix(value, "nvidia"@) || has_infix(value, "rocm"@)))
}

/// The `key=value` entries of a NUL-separated environment block: each piece
/// that holds an `=` splits at its first one; other pieces are skipped.
pub open spec fn environ_entries(pieces: Seq<Seq<char>>) -> Seq<(Seq<char>, Seq<char>)>
    decreases pieces.len(),
{
    if pieces.len() == 0 {
        Seq::empty()
    } else {
        let rest = environ_entries(pieces.drop_last());
        let p = pieces.last();
        let k = first_index(p, '=');
        if k >= 0 {
            rest.push((p.take(k), p.skip(k + 1)))
        } else {
            rest
        }
    }
}

/// The views of a list of key-value string pairs.
pub open spec fn pair_views(v: Seq<(String, String)>) -> Seq<(Seq<char>, Seq<char>)> {
    v.map_values(|e: (String, String)| (e.0@, e.1@))
}

impl ProcessScanner {
    /// The environment variables of a raw `/proc/<pid>/environ` block.
    pub fn parse_environ(raw: &str) -> (r: Vec<(String, String)>)
        ensures
            pair_views(r@) == environ_entries(split_on(raw@, '\0')),
    {
        let cs = chars_of(raw);
        let pieces = split_chars(&cs, '\0');
        let ghost ps = split_on(raw@, '\0');
        let mut out: Vec<(String, String)> = Vec::new();
        let mut i: usize = 0;
        while i < pieces.len()
            invariant
                i <= pieces@.len() == ps.len(),
                forall|k: int| 0 <= k < pieces@.len() ==> #[trigger] pieces@[k]@ == ps[k],
                pair_views(out@) == environ_entries(ps.take(i as int)),
            decreases pieces.len() - i,
        {
            let p = &pieces[i];
            assert(p@ == ps[i as int]);
            assert(ps.take(i + 1).drop_last() =~= ps.take(i as int));
            let found = find_char(p, '=');
            match found.1 {
                Some(k) => {
                    let key = slice_chars(p, 0, k);
                    let value = slice_chars(p, k + 1, p.len());
                    assert(key@ =~= p@.take(k as int));
                    assert(value@ =~= p@.skip(k + 1));
                    let ghost before = out@;
                    out.push((string_of(&key), string_of(&value)));
                    assert(pair_views(out@) =~= pair_views(before).push((key@, value@)));
                },
                None => {},
            }
            i += 1;
        }
        assert(ps.take(ps.len() as int) =~= ps);
        out
    }

    /// A raw `/proc/<pid>/cmdline` block made readable: NUL separators
    /// become spaces, and surrounding white space is trimmed.
    pub fn format_cmdline(raw: &str) -> (r: String)
        ensures
            is_trim_of(r@, raw@.map_values(|c: char| if c == '\0' { ' ' } else { c })),
    {
        let cs = chars_of(raw);
        let mut spaced: Vec<char> = Vec::new();
        let mut i: usize = 0;
        while i < cs.len()
            invariant
                i <= cs@.len(),
                cs@ == raw@,
                spaced@ == cs@.take(i as int).map_values(|c: char| if c == '\0' { ' ' } else { c }),
            decreases cs.len() - i,
        {
            let c = cs[i];
            spaced.push(if c == '\0' { ' ' } else { c });
            assert(cs@.take(i + 1) =~= cs@.take(i as int).push(c));
            i += 1;
        }
        assert(cs@.take(cs@.len() as int) =~= cs@);
        let t = trim_chars(&spaced);
        string_of(&t)
    }

    /// Whether any of `env_vars` marks a GPU process (see `is_gpu_env_var`).
    pub fn has_gpu_environment(env_vars: &Vec<(String, String)>) -> (r: bool)
        ensures
            r == exists|i: int|
                0 <= i < env_vars@.len() && is_gpu_env_var(
                    (#[trigger] env_vars@[i]).0@,
                    env_vars@[i].1@,
                ),
    {
        let patterns = [
            "CUDA_VISIBLE_DEVICES",
            "NVIDIA_VISIBLE_DEVICES",
            "NVIDIA_DRIVER_CAPABILITIES",
            "ROCR_VISIBLE_DEVICES",
            "HIP_VISIBLE_DEVICES",
        ];
        let ld = "LD_LIBRARY_PATH".to_owned();
        let mut i: usize = 0;
        while i < env_vars.len()
            invariant
                i <= env_vars@.len(),
                ld@ == "LD_LIBRARY_PATH"@,
                patterns@ == seq![
                    "CUDA_VISIBLE_DEVICES",
                    "NVIDIA_VISIBLE_DEVICES",
                    "NVIDIA_DRIVER_CAPABILITIES",
                    "ROCR_VISIBLE_DEVICES",
                    "HIP_VISIBLE_DEVICES",
                ],
                forall|j: int|
                    0 <= j < i ==> !is_gpu_env_var(
                        (#[trigger] env_vars@[j]).0@,
                        env_vars@[j].1@,
                    ),
            decreases env_vars.len() - i,
        {
            let key = chars_of(env_vars[i].0.as_str());
            let value = chars_of(env_vars[i].1.as_str());
            let mut p: usize = 0;
            while p < 5
                invariant
                    p <= 5,
                    i < env_vars@.len(),
                    key@ == env_vars@[i as int].0@,
                    patterns@ == seq![
                        "CUDA_VISIBLE_DEVICES",
                        "NVIDIA_VISIBLE_DEVICES",
                        "NVIDIA_DRIVER_CAPABILITIES",
                        "ROCR_VISIBLE_DEVICES",
                        "HIP_VISIBLE_DEVICES",
                    ],
                    forall|j: int| 0 <= j < p ==> !has_infix(key@, (#[trigger] patterns@[j])@),
                decreases 5 - p,
            {
                if contains(&key, patterns[p]) {
                    proof {
                        let pat = patterns@[p as int];
                        assert(has_infix(key@, pat@));
                        if p == 0 {
                        } else if p == 1 {
                        } else if p == 2 {
                        } else if p == 3 {
                        } else {
                        }
                        assert(is_gpu_env_var(env_vars@[i as int].0@, env_vars@[i as int].1@));
                    }
                    return true;
                }
                p += 1;
            }
            assert(!has_infix(key@, patterns@[0]@));
            assert(!has_infix(key@, patterns@[1]@));
            assert(!has_infix(key@, patterns@[2]@));
            assert(!has_infix(key@, patterns@[3]@));
            assert(!has_infix(key@, patterns@[4]@));
            if env_vars[i].0 == ld && (contains(&value, "cuda") || contains(&value, "nvidia")
                || contains(&value, "rocm")) {
                return true;
            }
            i += 1;
        }
        false
    }
}

} // verus!
