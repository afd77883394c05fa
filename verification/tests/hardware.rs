use ollama_model_resolver::error::ResolverError;
use ollama_model_resolver::hardware::{
    darwin_free_ram_bytes, default_models_dir, detect, detect_disk, detect_gpus, detect_ram,
    detect_unified_mem, detect_with_policy, existing_ancestor, parse_meminfo_kb,
    parse_nvidia_smi_csv_with_visibility,
    select_gpu_fit_basis, select_unified_fit_basis, CudaVisibility, DiskReading, RamReading,
    Readings,
};
use ollama_model_resolver::types::{GpuFitPolicy, GpuInfo};

#[test]
fn parses_meminfo_line() {
    assert_eq!(parse_meminfo_kb("MemAvailable:   12345 kB"), Some(12345));
}

#[test]
fn parses_nvidia_smi_inventory_and_visibility_by_index() {
    let visibility = CudaVisibility::from_value("1");
    let gpus = parse_nvidia_smi_csv_with_visibility(
        "0, GPU-aaaa, NVIDIA A, 24576, 12000\n1, GPU-bbbb, NVIDIA B, 49152, 48000\n",
        &visibility,
    );

    assert_eq!(gpus.len(), 2);
    assert!(!gpus[0].visible);
    assert!(gpus[1].visible);
}

#[test]
fn cuda_visible_devices_empty_hides_all_gpus() {
    let visibility = CudaVisibility::from_value("");
    assert!(!visibility.includes(0, Some("GPU-abc")));
}

#[test]
fn cuda_visible_devices_matches_uuid_prefix() {
    let visibility = CudaVisibility::from_value("abc");
    assert!(visibility.includes(3, Some("GPU-abcdef")));
}

#[test]
fn best_policy_uses_most_total_visible_gpu() {
    let gpus = vec![
        GpuInfo {
            index: 0,
            uuid: None,
            name: "A".into(),
            vram_total: 100,
            vram_free: 50,
            visible: true,
        },
        GpuInfo {
            index: 1,
            uuid: None,
            name: "B".into(),
            vram_total: 200,
            vram_free: 80,
            visible: true,
        },
    ];

    let (_, total, fit_capacity, indices) = select_gpu_fit_basis(&gpus, GpuFitPolicy::Best);
    // Ollama serves one model at a time, so fit basis is total VRAM
    assert_eq!((total, fit_capacity, indices), (200, 200, vec![1]));
}

#[test]
fn visible_sum_policy_sums_total_visible_gpus() {
    let gpus = vec![
        GpuInfo {
            index: 0,
            uuid: None,
            name: "A".into(),
            vram_total: 100,
            vram_free: 50,
            visible: true,
        },
        GpuInfo {
            index: 1,
            uuid: None,
            name: "B".into(),
            vram_total: 200,
            vram_free: 80,
            visible: false,
        },
    ];

    let (_, total, fit_capacity, indices) = select_gpu_fit_basis(&gpus, GpuFitPolicy::VisibleSum);
    assert_eq!((total, fit_capacity, indices), (100, 100, vec![0]));
}

#[test]
fn all_sum_policy_ignores_cuda_visibility() {
    let gpus = vec![
        GpuInfo {
            index: 0,
            uuid: None,
            name: "A".into(),
            vram_total: 100,
            vram_free: 50,
            visible: true,
        },
        GpuInfo {
            index: 1,
            uuid: None,
            name: "B".into(),
            vram_total: 200,
            vram_free: 80,
            visible: false,
        },
    ];

    let (_, total, fit_capacity, indices) = select_gpu_fit_basis(&gpus, GpuFitPolicy::AllSum);
    assert_eq!((total, fit_capacity, indices), (300, 300, vec![0, 1]));
}

fn readings() -> Readings {
    Readings {
        models_dir: "/models".to_string(),
        unified_mem: None,
        nvidia_smi: Some(
            "0, GPU-aaaa, NVIDIA A, 24576, 12000\n1, GPU-bbbb, NVIDIA B, 49152, 48000\n".to_string(),
        ),
        cuda_visible_devices: None,
        ram: RamReading::Meminfo(
            "MemTotal:       1000 kB\nMemFree:         1 kB\nMemAvailable:    600 kB\n".to_string(),
        ),
        disk: DiskReading::Space { blocks: 10, block_size: 4096 },
    }
}

#[test]
fn profile_follows_from_the_readings() {
    let hw = detect(readings()).unwrap();
    assert_eq!(hw.gpu_name.as_deref(), Some("NVIDIA B (GPU 1)"));
    assert_eq!(hw.vram_total, 49152 * 1024 * 1024);
    assert_eq!(hw.vram_free, hw.vram_total);
    assert_eq!((hw.ram_total, hw.ram_available), (1_024_000, 614_400));
    assert_eq!(hw.disk_free, 40_960);
    assert_eq!(hw.selected_gpu_indices, vec![1]);
    assert_eq!(hw.gpus.len(), 2);
    assert_eq!(hw.visible_gpu_count(), 2);
    assert_eq!(hw.models_dir, "/models");
    assert_eq!(hw.unified_mem_total, 0);
    assert_eq!(hw.gpu_fit_policy, GpuFitPolicy::Best);
}

#[test]
fn policies_choose_what_counts() {
    let mut given = readings();
    given.cuda_visible_devices = Some("0".to_string());
    let hw = detect_with_policy(given.clone(), GpuFitPolicy::VisibleSum).unwrap();
    assert_eq!(hw.gpu_name.as_deref(), Some("NVIDIA A (GPU 0)"));
    assert_eq!(hw.selected_gpu_indices, vec![0]);
    let hw = detect_with_policy(given.clone(), GpuFitPolicy::AllSum).unwrap();
    assert_eq!(hw.gpu_name.as_deref(), Some("2 detected NVIDIA GPUs (aggregate)"));
    assert_eq!(hw.vram_total, (24576 + 49152) * 1024 * 1024);
    given.cuda_visible_devices = None;
    let hw = detect_with_policy(given, GpuFitPolicy::VisibleSum).unwrap();
    assert_eq!(hw.gpu_name.as_deref(), Some("2 CUDA-visible NVIDIA GPUs (aggregate)"));
}

#[test]
fn hidden_gpus_leave_the_system_memory() {
    let mut given = readings();
    given.cuda_visible_devices = Some("NoDevFiles".to_string());
    let hw = detect(given).unwrap();
    assert!(!hw.has_gpu());
    assert_eq!(hw.gpu_name, None);
    assert_eq!(hw.available_runtime_bytes(true), 614_400);
    assert_eq!(hw.gpu_fit_basis(), "system RAM (no CUDA-visible NVIDIA GPU selected)");
}

#[test]
fn shared_memory_is_the_basis_on_apple_silicon() {
    let mut given = readings();
    given.unified_mem = Some(16_000);
    given.ram = RamReading::Darwin { memsize: Some(16_000), available: Some(9_000) };
    let hw = detect(given).unwrap();
    assert_eq!(hw.gpu_name.as_deref(), Some("Apple Silicon (Unified)"));
    assert_eq!((hw.vram_total, hw.unified_mem_total), (16_000, 16_000));
    assert_eq!(hw.selected_gpu_indices, vec![0]);
    assert_eq!(hw.available_runtime_bytes(false), 9_000);
    assert_eq!(hw.available_runtime_bytes(true), 9_000);
    assert_eq!(select_unified_fit_basis(5).1, 5);
}

#[test]
fn unknown_memory_is_reported_before_unknown_disk() {
    let mut given = readings();
    given.ram = RamReading::Unsupported;
    given.disk = DiskReading::NoAncestor;
    assert_eq!(
        detect(given.clone()).unwrap_err().message(),
        "failed to detect system RAM: RAM detection is not implemented on this platform"
    );
    given.ram = readings().ram;
    assert_eq!(
        detect(given).unwrap_err().message(),
        "failed to detect disk space: no existing ancestor for /models"
    );
}

#[test]
fn memory_readings_can_fail_in_each_way() {
    let fault = |reading: RamReading| detect_ram(&reading).unwrap_err();
    assert_eq!(
        fault(RamReading::Meminfo("MemAvailable: 1 kB".into())),
        ResolverError::RamDetection("MemTotal not found".into())
    );
    assert_eq!(
        fault(RamReading::Meminfo("MemTotal: 1 kB\nMemAvailable: x kB".into())),
        ResolverError::RamDetection("MemAvailable not found".into())
    );
    assert_eq!(
        fault(RamReading::MeminfoUnreadable("denied".into())),
        ResolverError::RamDetection("denied".into())
    );
    assert_eq!(
        fault(RamReading::Darwin { memsize: None, available: Some(1) }),
        ResolverError::RamDetection("hw.memsize unavailable".into())
    );
    assert_eq!(detect_ram(&RamReading::Darwin { memsize: Some(7), available: None }), Ok((7, 0)));
}

#[test]
fn disk_readings_can_fail_in_each_way() {
    assert_eq!(
        detect_disk("/m", &DiskReading::StatFailed("/".into())),
        Err(ResolverError::DiskDetection("statvfs failed on /".into()))
    );
    assert_eq!(
        detect_disk("/m", &DiskReading::BadPath("nul byte".into())),
        Err(ResolverError::DiskDetection("nul byte".into()))
    );
    assert_eq!(
        detect_disk("/m", &DiskReading::Space { blocks: u64::MAX, block_size: 2 }),
        Ok(u64::MAX)
    );
}

#[test]
fn darwin_memory_leaves_out_wired_and_compressed_pages() {
    assert_eq!(darwin_free_ram_bytes(10, Some(1000), Some((3, 4))), Some(930));
    assert_eq!(darwin_free_ram_bytes(10, Some(60), Some((3, 4))), Some(0));
    assert_eq!(darwin_free_ram_bytes(0, Some(60), Some((3, 4))), None);
    assert_eq!(darwin_free_ram_bytes(10, None, Some((3, 4))), None);
    assert_eq!(darwin_free_ram_bytes(10, Some(60), None), None);
}

#[test]
fn only_arm64_has_shared_memory() {
    assert_eq!(detect_unified_mem(Some(1), Some(9)), Some(9));
    assert_eq!(detect_unified_mem(Some(0), Some(9)), None);
    assert_eq!(detect_unified_mem(None, Some(9)), None);
}

#[test]
fn models_dir_follows_the_environment() {
    let dir = Some("/data".to_string());
    let home = Some("/home/u".to_string());
    let root = Some("/".to_string());
    assert_eq!(default_models_dir(&dir, &home), "/data");
    assert_eq!(default_models_dir(&None, &home), "/home/u/.ollama/models");
    assert_eq!(default_models_dir(&None, &root), "/.ollama/models");
    assert_eq!(default_models_dir(&None, &None), "/tmp");
}

#[test]
fn malformed_inventory_lines_are_skipped() {
    let stdout = "x, GPU-a, A, 1, 1\r\n0, [Not Supported], B, 2, 1\n1, GPU-c, C, 2\n+2,,D,3,3".to_string();
    let gpus = detect_gpus(&Some(stdout), &None);
    assert_eq!(gpus.len(), 2);
    assert_eq!((gpus[0].index, gpus[0].uuid.clone(), gpus[0].vram_total), (0, None, 2_097_152));
    assert_eq!((gpus[1].index, gpus[1].name.as_str(), gpus[1].vram_free), (2, "D", 3_145_728));
    assert!(detect_gpus(&None, &None).is_empty());
}

#[test]
fn visibility_lists_indices_and_uuids() {
    let visibility = CudaVisibility::from_value(" 0 , ,GPU-x ");
    assert_eq!(visibility, CudaVisibility::Tokens(vec!["0".into(), "GPU-x".into()]));
    assert!(visibility.includes(0, None));
    assert!(visibility.includes(5, Some("GPU-x")));
    assert!(!visibility.includes(5, Some("GPU-xy")));
    assert_eq!(CudaVisibility::from_value("-1"), CudaVisibility::NoDevices);
    assert_eq!(CudaVisibility::from_value(" NONE "), CudaVisibility::NoDevices);
    assert_eq!(CudaVisibility::from_value(", ,"), CudaVisibility::NoDevices);
    assert_eq!(CudaVisibility::from_setting(&None), CudaVisibility::All);
}

#[test]
fn of_equal_gpus_the_higher_index_is_best() {
    let stdout = "0, GPU-a, A, 8, 8\n1, GPU-b, B, 8, 1\n".to_string();
    let gpus = detect_gpus(&Some(stdout), &None);
    let (name, _, _, indices) = select_gpu_fit_basis(&gpus, GpuFitPolicy::Best);
    assert_eq!(name.as_deref(), Some("B (GPU 1)"));
    assert_eq!(indices, vec![1]);
}

#[test]
fn innermost_existing_directory_counts() {
    let at = |flags: &[bool]| {
        existing_ancestor(&flags.iter().map(|exists| ("/x".to_string(), *exists)).collect())
    };
    assert_eq!(at(&[false, true, true]), Some(1));
    assert_eq!(at(&[false]), None);
    assert_eq!(at(&[]), None);
}
