//! What the machine offers to run a model: the probe's findings and how the
//! raw output of the GPU query is read.
use vstd::prelude::*;

use crate::text::{
    chars_of, lines, parse_u64, seq_contains, spec_parse_unsigned, spec_to_lowercase, split_lines,
    str_contains, string_of, to_lowercase, trim, trimmed, views,
};

verus! {

/// What the probe learned about this machine; used to decide whether a model fits.
#[derive(Debug, Clone)]
pub struct HardwareInfo {
    pub os: String,
    pub arch: String,
    pub cpu_cores: usize,
    pub cpu_brand: String,
    pub total_ram_bytes: u64,
    pub gpu_backend: String,
    pub gpu_name: Option<String>,
    pub vram_bytes: Option<u64>,
}

/// What the GPU query found: the backend to use, the adapter's name and
/// its video memory.
#[derive(Debug, Clone)]
pub struct GpuProbe {
    pub backend: String,
    pub name: Option<String>,
    pub vram_bytes: Option<u64>,
}

/// The backend for a GPU of the given name: CUDA for NVIDIA, ROCm for AMD
/// and Radeon, Intel for Intel, otherwise unknown.
pub open spec fn spec_gpu_backend(name: Seq<char>) -> Seq<char> {
    let l = spec_to_lowercase(name);
    if seq_contains(l, "nvidia"@) {
        "CUDA"@
    } else if seq_contains(l, "amd"@) || seq_contains(l, "radeon"@) {
        "ROCm"@
    } else if seq_contains(l, "intel"@) {
        "Intel"@
    } else {
        "unknown"@
    }
}

/// The backend for a GPU named `name`.
pub fn gpu_backend(name: &str) -> (b: String)
    ensures
        b@ == spec_gpu_backend(name@),
{
    let l = to_lowercase(name);
    if str_contains(l.as_str(), "nvidia") {
        "CUDA".to_owned()
    } else if str_contains(l.as_str(), "amd") || str_contains(l.as_str(), "radeon") {
        "ROCm".to_owned()
    } else if str_contains(l.as_str(), "intel") {
        "Intel".to_owned()
    } else {
        "unknown".to_owned()
    }
}

/// `s` without its commas.
pub open spec fn without_commas(s: Seq<char>) -> Seq<char> {
    s.filter(|c: char| c != ',')
}

/// The adapter name of the GPU query's output: its first line, unless empty.
pub open spec fn probe_name(out: Seq<char>) -> Option<Seq<char>> {
    let ls = lines(out);
    if ls.len() > 0 && ls[0].len() > 0 {
        Some(ls[0])
    } else {
        None
    }
}

/// The video memory of the GPU query's output: its second line, trimmed
/// and without thousands separators, read as a number.
pub open spec fn probe_vram(out: Seq<char>) -> Option<u64> {
    let ls = lines(out);
    if ls.len() > 1 {
        match spec_parse_unsigned(without_commas(trim(ls[1])), u64::MAX as int) {
            Some(v) => Some(v as u64),
            None => None,
        }
    } else {
        None
    }
}

/// The characters of `v` other than commas.
fn drop_commas(v: &Vec<char>) -> (r: Vec<char>)
    ensures
        r@ == without_commas(v@),
{
    let mut r: Vec<char> = Vec::new();
    let mut i: usize = 0;
    while i < v.len()
        invariant
            i <= v.len(),
            r@ == without_commas(v@.take(i as int)),
        decreases v.len() - i,
    {
        proof {
            v@.take(i as int).lemma_filter_push(v@[i as int], |c: char| c != ',');
        }
        assert(v@.take(i + 1) =~= v@.take(i as int).push(v@[i as int]));
        if v[i] != ',' {
            r.push(v[i]);
        }
        i = i + 1;
    }
    assert(v@.take(v.len() as int) =~= v@);
    r
}

/// Read the output of the GPU query: the adapter's name on the first line
/// and its memory in bytes on the second.
pub fn gpu_from_probe_output(out: &str) -> (g: GpuProbe)
    ensures
        match g.name {
            Some(n) => probe_name(out@) == Some(n@) && g.backend@ == spec_gpu_backend(n@),
            None => probe_name(out@) is None && g.backend@ == "unknown"@,
        },
        g.vram_bytes == probe_vram(out@),
{
    let ls = split_lines(&chars_of(out));
    let ghost lv = views(ls@);
    let name: Option<String> = if ls.len() > 0 && ls[0].len() > 0 {
        Some(string_of(&ls[0]))
    } else {
        None
    };
    let vram: Option<u64> = if ls.len() > 1 {
        parse_u64(&drop_commas(&trimmed(&ls[1])))
    } else {
        None
    };
    let backend = match &name {
        Some(n) => gpu_backend(n.as_str()),
        None => "unknown".to_owned(),
    };
    GpuProbe { backend, name, vram_bytes: vram }
}

/// The probe's findings about a machine whose system reports `cpu_count`
/// processors (at least one is counted) and `first_brand` as the brand of
/// the first one (`unknown` when missing or empty).
pub fn hardware_info(
    os: String,
    arch: String,
    cpu_count: usize,
    first_brand: Option<String>,
    total_ram_bytes: u64,
    gpu: GpuProbe,
) -> (h: HardwareInfo)
    ensures
        h.os == os,
        h.arch == arch,
        h.cpu_cores == if cpu_count == 0 {
            1
        } else {
            cpu_count
        },
        h.cpu_brand@ == match first_brand {
            Some(b) if b@.len() > 0 => b@,
            _ => "unknown"@,
        },
        h.total_ram_bytes == total_ram_bytes,
        h.gpu_backend == gpu.backend,
        h.gpu_name == gpu.name,
        h.vram_bytes == gpu.vram_bytes,
{
    let cores = if cpu_count == 0 {
        1
    } else {
        cpu_count
    };
    let brand = match first_brand {
        Some(b) => {
            if b.as_str().unicode_len() > 0 {
                b
            } else {
                "unknown".to_owned()
            }
        },
        None => "unknown".to_owned(),
    };
    HardwareInfo {
        os,
        arch,
        cpu_cores: cores,
        cpu_brand: brand,
        total_ram_bytes,
        gpu_backend: gpu.backend,
        gpu_name: gpu.name,
        vram_bytes: gpu.vram_bytes,
    }
}

} // verus!
