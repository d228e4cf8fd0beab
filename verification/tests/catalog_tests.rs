use ragit::catalog::{
    classify, estimated_size_bytes, guess_default_file, infer_modalities, is_embed_model,
    largest_gguf, listing_url, pick_default_file, search_url, urlencode, Fitness,
};
use ragit::hardware::{gpu_backend, gpu_from_probe_output, hardware_info, GpuProbe, HardwareInfo};

const GIB: u64 = 1024 * 1024 * 1024;

fn machine(vram: Option<u64>, ram: u64) -> HardwareInfo {
    HardwareInfo {
        os: "windows".to_string(),
        arch: "x86_64".to_string(),
        cpu_cores: 8,
        cpu_brand: "cpu".to_string(),
        total_ram_bytes: ram,
        gpu_backend: "CUDA".to_string(),
        gpu_name: None,
        vram_bytes: vram,
    }
}

#[test]
fn fitness_with_a_gpu() {
    let hw = machine(Some(8 * GIB), 16 * GIB);
    assert_eq!(classify(3 * GIB, &hw), Fitness::Fits);
    assert_eq!(classify(4 * GIB, &hw), Fitness::Fits);
    assert_eq!(classify(6 * GIB, &hw), Fitness::Tight);
    assert_eq!(classify(10 * GIB, &hw), Fitness::Tight);
    assert_eq!(classify(15 * GIB, &hw), Fitness::TooBig);
}

#[test]
fn fitness_without_a_gpu() {
    let hw = machine(None, 16 * GIB);
    assert_eq!(classify(7 * GIB, &hw), Fitness::Fits);
    assert_eq!(classify(10 * GIB, &hw), Fitness::Tight);
    assert_eq!(classify(15 * GIB, &hw), Fitness::TooBig);
    let tiny = machine(Some(0), GIB);
    assert_eq!(classify(0, &tiny), Fitness::Fits);
    assert_eq!(classify(1, &tiny), Fitness::TooBig);
}

#[test]
fn bigger_models_never_fit_better() {
    let rank = |f: Fitness| match f {
        Fitness::Fits => 0,
        Fitness::Tight => 1,
        Fitness::TooBig => 2,
    };
    for hw in [machine(Some(6 * GIB), 32 * GIB), machine(None, 8 * GIB)] {
        let mut last = 0;
        for gb in 0..40u64 {
            let r = rank(classify(gb * GIB / 2, &hw));
            assert!(r >= last);
            last = r;
        }
    }
}

#[test]
fn queries_are_url_encoded() {
    assert_eq!(urlencode("a b&c/\u{e9}~-_."), "a+b%26c%2F%C3%A9~-_.");
    assert_eq!(urlencode(""), "");
    assert_eq!(
        search_url("qwen 7b"),
        "https://huggingface.co/api/models?search=qwen+7b&filter=gguf&limit=25"
    );
}

#[test]
fn modalities_from_tags() {
    let tags: Vec<String> = ["Vision-Language", "gguf", "AUDIO"].iter().map(|s| s.to_string()).collect();
    assert_eq!(infer_modalities(&tags), vec!["text", "vision", "audio"]);
    assert_eq!(infer_modalities(&vec![]), vec!["text"]);
}

#[test]
fn embedding_models_are_recognised() {
    assert!(is_embed_model(&vec!["Sentence-Embeddings".to_string()], "org/model"));
    assert!(is_embed_model(&vec![], "nomic-ai/nomic-EMBED-text"));
    assert!(!is_embed_model(&vec!["chat".to_string()], "org/llama"));
}

#[test]
fn default_file_names() {
    assert_eq!(guess_default_file("Qwen/Qwen2.5-7B-Instruct-GGUF"), "Qwen2.5-7B-Instruct-GGUF-Q4_K_M.gguf");
    assert_eq!(guess_default_file("solo"), "solo-Q4_K_M.gguf");
    assert_eq!(guess_default_file("a/b/"), "-Q4_K_M.gguf");
}

fn listing(v: &[(&str, u64)]) -> Vec<(String, u64)> {
    v.iter().map(|(n, s)| (n.to_string(), *s)).collect()
}

#[test]
fn the_largest_gguf_file_is_the_default() {
    let files = listing(&[
        ("README.md", 9_000_000_000),
        ("m-Q4_K_M.gguf", 4_000),
        ("m-Q8_0.gguf", 8_000),
        ("m-F16.gguf", 8_000),
        ("config.json", 10),
    ]);
    assert_eq!(largest_gguf(&files), Some("m-Q8_0.gguf".to_string()));
    assert_eq!(pick_default_file("org/m-GGUF", &files), "m-Q8_0.gguf");
    let none = listing(&[("README.md", 5), ("model.safetensors", 50)]);
    assert_eq!(largest_gguf(&none), None);
    assert_eq!(pick_default_file("org/m-GGUF", &none), "m-GGUF-Q4_K_M.gguf");
    assert_eq!(pick_default_file("org/m-GGUF", &vec![]), "m-GGUF-Q4_K_M.gguf");
    assert_eq!(listing_url("org/m-GGUF"), "https://huggingface.co/api/models/org/m-GGUF?blobs=true");
}

#[test]
fn assumed_sizes() {
    assert_eq!(estimated_size_bytes(&vec!["text-embedding".to_string()]), 536870912);
    assert_eq!(estimated_size_bytes(&vec!["embed".to_string()]), 4294967296);
    assert_eq!(estimated_size_bytes(&vec![]), 4 * GIB);
}

#[test]
fn gpu_backends() {
    assert_eq!(gpu_backend("NVIDIA GeForce RTX 3080"), "CUDA");
    assert_eq!(gpu_backend("AMD Radeon RX 6800"), "ROCm");
    assert_eq!(gpu_backend("Radeon Pro"), "ROCm");
    assert_eq!(gpu_backend("Intel(R) UHD Graphics"), "Intel");
    assert_eq!(gpu_backend("Microsoft Basic Display"), "unknown");
}

#[test]
fn gpu_query_output() {
    let g = gpu_from_probe_output("NVIDIA GeForce RTX 3080\r\n10,737,418,240\r\n");
    assert_eq!(g.name, Some("NVIDIA GeForce RTX 3080".to_string()));
    assert_eq!(g.backend, "CUDA");
    assert_eq!(g.vram_bytes, Some(10737418240));
    let g = gpu_from_probe_output("\n  123 \n");
    assert_eq!(g.name, None);
    assert_eq!(g.backend, "unknown");
    assert_eq!(g.vram_bytes, Some(123));
    let g = gpu_from_probe_output("Intel Arc\nunknown");
    assert_eq!(g.backend, "Intel");
    assert_eq!(g.vram_bytes, None);
    assert_eq!(gpu_from_probe_output("").name, None);
}

#[test]
fn probe_findings() {
    let gpu = GpuProbe { backend: "CUDA".to_string(), name: Some("gpu".to_string()), vram_bytes: Some(5) };
    let h = hardware_info("linux".to_string(), "aarch64".to_string(), 0, Some(String::new()), 42, gpu);
    assert_eq!(h.cpu_cores, 1);
    assert_eq!(h.cpu_brand, "unknown");
    assert_eq!(h.total_ram_bytes, 42);
    assert_eq!(h.vram_bytes, Some(5));
    let gpu = GpuProbe { backend: "unknown".to_string(), name: None, vram_bytes: None };
    let h = hardware_info("windows".to_string(), "x86_64".to_string(), 12, Some("Ryzen".to_string()), 1, gpu);
    assert_eq!(h.cpu_cores, 12);
    assert_eq!(h.cpu_brand, "Ryzen");
}
