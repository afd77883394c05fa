use ollama_model_resolver::fit::{
    check_fit, context_margin_pct, effective_margin_pct, estimate_runtime_bytes, ResolveOpts,
};
use ollama_model_resolver::rank::rank_candidates;
use ollama_model_resolver::types::{
    tag_info_from_str, FitResult, GpuFitPolicy, HardwareProfile, ModelVariant, ParamCount, TagInfo,
};

fn tag(name: &str, billions: Option<f64>) -> TagInfo {
    tag_info_from_str("m", name, billions.map(|b| ParamCount { bits: b.to_bits() }))
}

fn names(tags: Vec<TagInfo>) -> Vec<String> {
    rank_candidates(tags).into_iter().map(|tag| tag.tag).collect()
}

#[test]
fn assistants_then_default_quantization_then_size() {
    let ranked = names(vec![
        tag("70b-base-q4_K_M", Some(70.0)),
        tag("7b-q8_0", Some(7.0)),
        tag("0.5b", Some(0.5)),
        tag("14b-fp16", Some(14.0)),
        tag("latest", None),
        tag("7b-q4_K_M", Some(7.0)),
        tag("7b", Some(7.0)),
        tag("1b-base-fp16", Some(1.0)),
    ]);
    assert_eq!(
        ranked,
        vec![
            "7b", "7b-q4_K_M", "0.5b", "latest", "14b-fp16", "7b-q8_0", "70b-base-q4_K_M",
            "1b-base-fp16"
        ]
    );
}

#[test]
fn base_models_rank_by_size_where_there_is_nothing_else() {
    assert_eq!(
        names(vec![tag("7b-base-fp16", Some(7.0)), tag("9b-base-q8_0", Some(9.0))]),
        vec!["9b-base-q8_0", "7b-base-fp16"]
    );
}

#[test]
fn counts_that_are_no_numbers_tie_with_other_counts() {
    let nan = Some(f64::NAN);
    assert_eq!(names(vec![tag("latest", None), tag("nanx7b", nan)]), vec!["nanx7b", "latest"]);
    assert_eq!(names(vec![tag("o7b", Some(7.0)), tag("nanx7b", nan)]), vec!["nanx7b", "o7b"]);
    assert_eq!(names(vec![tag("nanx7b", nan), tag("7b", Some(7.0))]), vec!["7b", "nanx7b"]);
    assert_eq!(
        names(vec![tag("nanx7b", Some(-f64::NAN)), tag("nanx1b", nan)]),
        vec!["nanx1b", "nanx7b"]
    );
}

#[test]
fn counts_are_compared_as_numbers() {
    assert_eq!(
        names(vec![
            tag("a", Some(-2.0)),
            tag("b", Some(-1.0)),
            tag("c", Some(0.5)),
            tag("d", Some(f64::INFINITY)),
            tag("f", Some(0.0)),
            tag("e", Some(-0.0)),
            tag("g", None),
            tag("h", Some(f64::NEG_INFINITY)),
        ]),
        vec!["d", "c", "e", "f", "b", "a", "h", "g"]
    );
}

#[test]
fn estimates_saturate() {
    assert_eq!(estimate_runtime_bytes(u64::MAX, u32::MAX), u64::MAX);
    assert_eq!(estimate_runtime_bytes(0, 500), 0);
    assert_eq!(estimate_runtime_bytes(100, 0), 100);
    assert_eq!(estimate_runtime_bytes(1, 1), 2);
}

#[test]
fn context_margin_counts_begun_blocks() {
    assert_eq!(context_margin_pct(0), 0);
    assert_eq!(context_margin_pct(8192), 0);
    assert_eq!(context_margin_pct(8193), 5);
    assert_eq!(context_margin_pct(16384), 5);
    assert_eq!(context_margin_pct(16385), 10);
    assert_eq!(context_margin_pct(u32::MAX), 2_621_435);
}

fn opts(allow_split: bool, margin_pct: u32) -> ResolveOpts {
    ResolveOpts {
        allow_split,
        margin_pct,
        context_tokens: 16384,
        max_manifest_lookups: None,
        fit_filter: false,
        all: false,
    }
}

#[test]
fn margins_add_up_and_saturate() {
    assert_eq!(effective_margin_pct(&opts(false, 20)), 25);
    assert_eq!(effective_margin_pct(&opts(false, u32::MAX)), u32::MAX);
}

fn machine(vram: u64, ram: u64) -> HardwareProfile {
    HardwareProfile {
        gpu_name: None,
        vram_total: vram,
        vram_free: vram,
        ram_total: ram,
        ram_available: ram,
        disk_free: 1000,
        models_dir: "/tmp".to_string(),
        gpus: Vec::new(),
        selected_gpu_indices: if vram > 0 { vec![0] } else { Vec::new() },
        cuda_visible_devices: None,
        gpu_fit_policy: GpuFitPolicy::Best,
        unified_mem_total: 0,
    }
}

fn needs(bytes: u64) -> ModelVariant {
    ModelVariant {
        name: "m".to_string(),
        tag: "7b".to_string(),
        full_ref: "m:7b".to_string(),
        weights_bytes: bytes,
        total_bytes: 10,
        estimated_runtime_bytes: bytes,
        runtime_margin_pct: 0,
        context_tokens: 8192,
        param_billions: None,
        quantization: None,
        is_instruct: true,
    }
}

#[test]
fn each_memory_has_its_verdict() {
    let split = opts(true, 20);
    let whole = opts(false, 20);
    assert_eq!(check_fit(&needs(10), &machine(10, 5), &split), FitResult::FitsVram);
    assert_eq!(
        check_fit(&needs(15), &machine(10, 5), &split),
        FitResult::FitsWithSplit { gpu_bytes: 10, need: 15 }
    );
    assert_eq!(
        check_fit(&needs(16), &machine(10, 5), &split),
        FitResult::DoesNotFit { need: 16, have: 15 }
    );
    assert_eq!(
        check_fit(&needs(15), &machine(10, 5), &whole),
        FitResult::DoesNotFit { need: 15, have: 10 }
    );
    assert_eq!(check_fit(&needs(5), &machine(0, 5), &whole), FitResult::FitsRamOnly);
    assert_eq!(
        check_fit(&needs(6), &machine(0, 5), &split),
        FitResult::DoesNotFit { need: 6, have: 5 }
    );
}

#[test]
fn larger_models_need_more_and_fit_less() {
    assert!(estimate_runtime_bytes(10, 20) <= estimate_runtime_bytes(11, 20));
    assert!(estimate_runtime_bytes(11, 20) <= estimate_runtime_bytes(11, 25));
    let whole = opts(false, 20);
    assert!(!check_fit(&needs(11), &machine(10, 5), &whole).fits());
    assert!(check_fit(&needs(10), &machine(10, 5), &whole).fits());
    assert!(check_fit(&needs(9), &machine(10, 5), &whole).fits());
}

#[test]
fn split_adds_memory_unless_it_is_shared() {
    let mut hw = machine(10, 5);
    assert_eq!((hw.available_runtime_bytes(false), hw.available_runtime_bytes(true)), (10, 15));
    hw.ram_available = u64::MAX;
    assert_eq!(hw.available_runtime_bytes(true), u64::MAX);
    hw.unified_mem_total = 10;
    hw.ram_available = 4;
    assert_eq!((hw.available_runtime_bytes(false), hw.available_runtime_bytes(true)), (4, 4));
    hw.ram_available = 0;
    assert_eq!(hw.unified_fit_ceiling(), 10);
}
