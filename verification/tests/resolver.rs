use std::collections::HashMap;

use ollama_model_resolver::error::ResolverError;
use ollama_model_resolver::registry::Registry;
use ollama_model_resolver::resolver::{
    check_fit, context_margin_pct, effective_margin_pct, estimate_runtime_bytes,
    manifest_evaluation_plan, resolve_with_registry, resolve_with_registry_diagnostics, Progress,
    ResolveOpts,
};
use ollama_model_resolver::types::{
    param_literal, tag_info_from_str, FitResult, GpuFitPolicy, HardwareProfile, ModelVariant,
    ParamCount, ParamLiteral, TagInfo,
};

fn param_count(tag: &str) -> Option<ParamCount> {
    let billions = match param_literal(tag)? {
        ParamLiteral::Plain { number } => number.parse::<f64>().ok()?,
        ParamLiteral::Product { experts, each } => {
            experts.parse::<f64>().ok()? * each.parse::<f64>().ok()?
        }
    };
    Some(ParamCount { bits: billions.to_bits() })
}

fn hw(vram: u64, ram: u64, disk: u64) -> HardwareProfile {
    HardwareProfile {
        gpu_name: if vram > 0 { Some("test-gpu".into()) } else { None },
        vram_total: vram,
        vram_free: vram, // deprecated: always equal to vram_total
        ram_total: ram,
        ram_available: ram,
        disk_free: disk,
        models_dir: "/tmp".to_string(),
        gpus: Vec::new(),
        selected_gpu_indices: if vram > 0 { vec![0] } else { Vec::new() },
        cuda_visible_devices: None,
        gpu_fit_policy: GpuFitPolicy::Best,
        unified_mem_total: 0,
    }
}

fn opts() -> ResolveOpts {
    ResolveOpts {
        allow_split: false,
        margin_pct: 20,
        context_tokens: 8_192,
        max_manifest_lookups: None,
        fit_filter: false,
        all: false,
    }
}

fn split_opts() -> ResolveOpts {
    ResolveOpts {
        allow_split: true,
        margin_pct: 20,
        context_tokens: 8_192,
        max_manifest_lookups: None,
        fit_filter: false,
        all: false,
    }
}

fn capped_opts(max_manifest_lookups: usize) -> ResolveOpts {
    ResolveOpts {
        allow_split: false,
        margin_pct: 20,
        context_tokens: 8_192,
        max_manifest_lookups: Some(max_manifest_lookups),
        fit_filter: false,
        all: false,
    }
}

fn variant(weights: u64, total: u64, estimated: u64) -> ModelVariant {
    ModelVariant {
        name: "m".into(),
        tag: "7b".into(),
        full_ref: "m:7b".into(),
        weights_bytes: weights,
        total_bytes: total,
        estimated_runtime_bytes: estimated,
        runtime_margin_pct: 20,
        context_tokens: 8_192,
        param_billions: Some(ParamCount { bits: 7.0_f64.to_bits() }),
        quantization: None,
        is_instruct: true,
    }
}

fn tag(name: &str, approx: Option<&str>) -> TagInfo {
    let mut info = tag_info_from_str("m", name, param_count(name));
    info.approx_size = approx.map(str::to_string);
    info
}

struct FakeRegistry {
    tags: Vec<TagInfo>,
    manifests: HashMap<String, (u64, u64)>,
    fatal_manifest_errors: HashMap<String, String>,
    manifest_calls: Vec<String>,
}

impl Registry for FakeRegistry {
    fn list_tags(&mut self, _model: &str) -> Result<Vec<TagInfo>, ResolverError> {
        Ok(self.tags.clone())
    }

    fn get_manifest_size(&mut self, model: &str, tag: &str) -> Result<(u64, u64), ResolverError> {
        self.manifest_calls.push(tag.to_string());
        if let Some(detail) = self.fatal_manifest_errors.get(tag) {
            return Err(ResolverError::ManifestUnavailable {
                model: model.to_string(),
                tag: tag.to_string(),
                detail: detail.clone(),
            });
        }
        // Mirror the real registry: nvfp4 quant tags are macOS-only and
        // return HTTP 412 ("requires macOS").
        if tag.contains("nvfp4") {
            return Err(ResolverError::ManifestPlatformRestricted {
                model: model.to_string(),
                tag: tag.to_string(),
                status: 412,
            });
        }
        // Mirror the real registry: cloud-only tags have no local weights.
        if tag.contains("cloud") {
            return Err(ResolverError::ManifestCloudOnly {
                model: model.to_string(),
                tag: tag.to_string(),
            });
        }
        self.manifests.get(tag).copied().ok_or_else(|| ResolverError::ManifestMissing {
            model: model.to_string(),
            tag: tag.to_string(),
            detail: "fake registry has no such manifest".to_string(),
        })
    }
}

#[test]
fn estimates_runtime_with_integer_ceiling() {
    assert_eq!(estimate_runtime_bytes(10, 20), 12);
    assert_eq!(estimate_runtime_bytes(11, 20), 14);
}


#[test]
fn context_tokens_raise_effective_margin_above_8k() {
    let mut options = opts();
    options.context_tokens = 32_768;
    assert_eq!(context_margin_pct(options.context_tokens), 15);
    assert_eq!(effective_margin_pct(&options), 35);
}

#[test]
fn detects_vram_fit_before_split() {
    let fit = check_fit(&variant(10, 10, 12), &hw(12, 100, 100), &split_opts());
    assert!(matches!(fit, FitResult::FitsVram));
}

#[test]
fn detects_split_fit() {
    let fit = check_fit(&variant(10, 10, 50), &hw(20, 40, 100), &split_opts());
    assert!(matches!(fit, FitResult::FitsWithSplit { .. }));
}

#[test]
fn disk_check_takes_precedence() {
    let fit = check_fit(&variant(10, 200, 12), &hw(100, 100, 100), &opts());
    assert!(matches!(fit, FitResult::InsufficientDisk { .. }));
}

// Apple Silicon unified memory: pool total is `total`, free-right-now is
// `free`. has_gpu() must stay true, so vram_total mirrors the pool total.
fn unified_hw(total: u64, free: u64, disk: u64) -> HardwareProfile {
    HardwareProfile {
        gpu_name: Some("Apple Silicon (Unified)".into()),
        vram_total: total,
        vram_free: total, // deprecated: always equal to vram_total
        ram_total: total,
        ram_available: free,
        disk_free: disk,
        models_dir: "/tmp".to_string(),
        gpus: Vec::new(),
        selected_gpu_indices: vec![0],
        cuda_visible_devices: None,
        gpu_fit_policy: GpuFitPolicy::Best,
        unified_mem_total: total,
    }
}

#[test]
fn unified_fits_against_available_memory() {
    // estimated 10 <= free 12 -> fits, even though pool total is 16.
    let fit = check_fit(&variant(8, 8, 10), &unified_hw(16, 12, 100), &opts());
    assert!(matches!(fit, FitResult::FitsVram));
}

#[test]
fn unified_rejects_above_available_even_when_below_pool_total() {
    // estimated 14 > free 12 but < pool total 16: conservative path rejects.
    let fit = check_fit(&variant(11, 11, 14), &unified_hw(16, 12, 100), &opts());
    match fit {
        FitResult::DoesNotFit { need, have } => {
            assert_eq!(need, 14);
            assert_eq!(have, 12); // reports free-right-now, not the 16 pool
        }
        other => panic!("expected DoesNotFit, got {other:?}"),
    }
}

#[test]
fn unified_ignores_split() {
    // --split must not rescue a model that exceeds the unified pool's free
    // memory; there is no separate VRAM/RAM to split across.
    let fit = check_fit(&variant(11, 11, 14), &unified_hw(16, 12, 100), &split_opts());
    assert!(matches!(fit, FitResult::DoesNotFit { .. }));
}

#[test]
fn unified_falls_back_to_pool_total_when_available_reads_zero() {
    // ram_available == 0 signals a failed vm_statistics read; fall back to
    // the pool total so a transient failure does not reject every model.
    let fit = check_fit(&variant(11, 11, 14), &unified_hw(16, 0, 100), &opts());
    assert!(matches!(fit, FitResult::FitsVram));
}

#[test]
fn approx_sizes_split_manifest_plan_into_primary_and_rejected() {
    let candidates = vec![
        tag("70b-q4_K_M", Some("40GB")),
        tag("14b-q4_K_M", Some("9GB")),
        tag("7b-q4_K_M", None),
    ];
    let plan = manifest_evaluation_plan(
        &candidates,
        &hw(12_000_000_000, 64_000_000_000, 100_000_000_000),
        &opts(),
    );
    assert_eq!(plan.primary, vec![1, 2]);
    assert_eq!(plan.approx_rejected, vec![0]);
}

#[test]
fn rejected_candidates_keep_ranked_order_for_fallback() {
    let candidates = vec![
        tag("70b-q4_K_M", Some("40GB")),
        tag("32b-q4_K_M", Some("20GB")),
        tag("14b-q4_K_M", Some("9GB")),
    ];
    let plan = manifest_evaluation_plan(
        &candidates,
        &hw(8_000_000_000, 64_000_000_000, 100_000_000_000),
        &opts(),
    );
    assert!(plan.primary.is_empty());
    assert_eq!(plan.approx_rejected, vec![0, 1, 2]);
}

#[test]
fn resolve_skips_approx_rejected_candidate_when_plausible_candidate_fits() {
    let mut registry = FakeRegistry {
        tags: vec![
            tag("70b-q4_K_M", Some("40GB")),
            tag("14b-q4_K_M", Some("9GB")),
        ],
        manifests: HashMap::from([
            ("70b-q4_K_M".into(), (40_000_000_000, 40_000_000_000)),
            ("14b-q4_K_M".into(), (9_000_000_000, 9_000_000_000)),
        ]),
        fatal_manifest_errors: HashMap::new(),
        manifest_calls: Vec::new(),
    };

    let (variant, fit) = resolve_with_registry(
        &mut registry,
        "m",
        &hw(12_000_000_000, 64_000_000_000, 100_000_000_000),
        &opts(),
    )
    .unwrap();
    assert_eq!(variant.tag, "14b-q4_K_M");
    assert!(fit.fits());
    assert_eq!(registry.manifest_calls, vec!["14b-q4_K_M"]);
}

#[test]
fn resolve_checks_all_rejected_candidates_in_ranked_order_when_primary_does_not_fit() {
    let mut registry = FakeRegistry {
        tags: vec![
            tag("70b-q4_K_M", Some("40GB")),
            tag("32b-q4_K_M", Some("20GB")),
            tag("14b-q4_K_M", Some("9GB")),
        ],
        manifests: HashMap::from([
            ("70b-q4_K_M".into(), (40_000_000_000, 40_000_000_000)),
            ("32b-q4_K_M".into(), (20_000_000_000, 20_000_000_000)),
            ("14b-q4_K_M".into(), (9_000_000_000, 9_000_000_000)),
        ]),
        fatal_manifest_errors: HashMap::new(),
        manifest_calls: Vec::new(),
    };

    let (variant, fit) = resolve_with_registry(
        &mut registry,
        "m",
        &hw(8_000_000_000, 64_000_000_000, 100_000_000_000),
        &opts(),
    )
    .unwrap();
    assert_eq!(variant.tag, "14b-q4_K_M");
    assert!(!fit.fits());
    assert_eq!(
        registry.manifest_calls,
        vec!["70b-q4_K_M", "32b-q4_K_M", "14b-q4_K_M"]
    );
}

#[test]
fn all_platform_restricted_candidates_report_platform_restricted() {
    // A model published only as macOS-only nvfp4 quants: every manifest 412s.
    let mut registry = FakeRegistry {
        tags: vec![tag("9b-nvfp4", None), tag("35b-a3b-nvfp4", None)],
        manifests: HashMap::new(),
        fatal_manifest_errors: HashMap::new(),
        manifest_calls: Vec::new(),
    };

    let err = resolve_with_registry(
        &mut registry,
        "qwen3.5",
        &hw(0, 64_000_000_000, 100_000_000_000),
        &opts(),
    )
    .unwrap_err();

    assert!(
        matches!(err, ResolverError::ManifestPlatformRestricted { .. }),
        "expected ManifestPlatformRestricted, got {err:?}"
    );
}

#[test]
fn platform_restricted_candidate_ignored_when_a_variant_fits() {
    // A normal tag that fits wins; the macOS-only nvfp4 tag is never reached.
    let mut registry = FakeRegistry {
        tags: vec![tag("9b-nvfp4", None), tag("7b", None)],
        manifests: HashMap::from([("7b".into(), (4_000_000_000, 4_000_000_000))]),
        fatal_manifest_errors: HashMap::new(),
        manifest_calls: Vec::new(),
    };

    let (variant, fit) = resolve_with_registry(
        &mut registry,
        "m",
        &hw(12_000_000_000, 64_000_000_000, 100_000_000_000),
        &opts(),
    )
    .unwrap();

    // A fitting variant is selected despite a 412 macOS-only candidate in
    // the tag list (regardless of which is probed first).
    assert_eq!(variant.tag, "7b");
    assert!(fit.fits());
}

#[test]
fn all_cloud_only_candidates_report_cloud_only() {
    let mut registry = FakeRegistry {
        tags: vec![tag("cloud", None), tag("cloud-large", None)],
        manifests: HashMap::new(),
        fatal_manifest_errors: HashMap::new(),
        manifest_calls: Vec::new(),
    };

    let err = resolve_with_registry(
        &mut registry,
        "m",
        &hw(0, 64_000_000_000, 100_000_000_000),
        &opts(),
    )
    .unwrap_err();

    assert!(
        matches!(err, ResolverError::ManifestCloudOnly { .. }),
        "expected ManifestCloudOnly, got {err:?}"
    );
}

#[test]
fn platform_restricted_takes_precedence_over_cloud_only() {
    // A model with both a cloud-only tag and a macOS-only tag (no sizable
    // variant) is reported as macOS-only — it is at least locally runnable
    // on macOS, unlike cloud-only.
    let mut registry = FakeRegistry {
        tags: vec![tag("cloud", None), tag("9b-nvfp4", None)],
        manifests: HashMap::new(),
        fatal_manifest_errors: HashMap::new(),
        manifest_calls: Vec::new(),
    };

    let err = resolve_with_registry(
        &mut registry,
        "m",
        &hw(0, 64_000_000_000, 100_000_000_000),
        &opts(),
    )
    .unwrap_err();

    assert!(
        matches!(err, ResolverError::ManifestPlatformRestricted { .. }),
        "expected ManifestPlatformRestricted, got {err:?}"
    );
}

#[test]
fn sized_non_fitting_variant_takes_precedence_over_platform_restricted() {
    // A sized-but-too-big tag is a more specific verdict than 412, so the
    // resolver reports DoesNotFit rather than platform-restricted.
    let mut registry = FakeRegistry {
        tags: vec![tag("9b-nvfp4", None), tag("70b", None)],
        manifests: HashMap::from([("70b".into(), (40_000_000_000, 40_000_000_000))]),
        fatal_manifest_errors: HashMap::new(),
        manifest_calls: Vec::new(),
    };

    let (variant, fit) = resolve_with_registry(
        &mut registry,
        "m",
        &hw(8_000_000_000, 64_000_000_000, 100_000_000_000),
        &opts(),
    )
    .unwrap();

    assert_eq!(variant.tag, "70b");
    assert!(!fit.fits());
}

#[test]
fn exact_manifest_can_rescue_pessimistic_hint_after_larger_rejected_candidates_fail() {
    let mut registry = FakeRegistry {
        tags: vec![
            tag("70b-q4_K_M", Some("80GB")),
            tag("14b-q4_K_M", Some("20GB")),
        ],
        manifests: HashMap::from([
            ("70b-q4_K_M".into(), (40_000_000_000, 40_000_000_000)),
            ("14b-q4_K_M".into(), (9_000_000_000, 9_000_000_000)),
        ]),
        fatal_manifest_errors: HashMap::new(),
        manifest_calls: Vec::new(),
    };

    let (variant, fit) = resolve_with_registry(
        &mut registry,
        "m",
        &hw(12_000_000_000, 64_000_000_000, 100_000_000_000),
        &opts(),
    )
    .unwrap();
    assert_eq!(variant.tag, "14b-q4_K_M");
    assert!(fit.fits());
    assert_eq!(registry.manifest_calls, vec!["70b-q4_K_M", "14b-q4_K_M"]);
}

#[test]
fn manifest_lookup_cap_records_unchecked_candidates() {
    let mut registry = FakeRegistry {
        tags: vec![
            tag("70b-q4_K_M", Some("80GB")),
            tag("32b-q4_K_M", Some("40GB")),
            tag("14b-q4_K_M", Some("20GB")),
        ],
        manifests: HashMap::from([
            ("70b-q4_K_M".into(), (40_000_000_000, 40_000_000_000)),
            ("32b-q4_K_M".into(), (20_000_000_000, 20_000_000_000)),
            ("14b-q4_K_M".into(), (9_000_000_000, 9_000_000_000)),
        ]),
        fatal_manifest_errors: HashMap::new(),
        manifest_calls: Vec::new(),
    };

    let outcome = resolve_with_registry_diagnostics(
        &mut registry,
        "m",
        &hw(8_000_000_000, 64_000_000_000, 100_000_000_000),
        &capped_opts(1),
    )
    .unwrap();

    assert_eq!(registry.manifest_calls, vec!["70b-q4_K_M"]);
    assert_eq!(outcome.diagnostics.manifest_skipped_by_cap.len(), 2);
    assert_eq!(outcome.variant.tag, "70b-q4_K_M");
}

#[test]
fn resolve_skips_missing_manifest_but_continues_to_next_candidate() {
    // Use large enough VRAM (20GB) so neither candidate is approx-deferred.
    // 14b has no manifest → skipped, 7b has manifest → fits → selected.
    let mut registry = FakeRegistry {
        tags: vec![
            tag("14b-q4_K_M", Some("9GB")),
            tag("7b-q4_K_M", Some("4GB")),
        ],
        manifests: HashMap::from([("7b-q4_K_M".into(), (4_000_000_000, 4_000_000_000))]),
        fatal_manifest_errors: HashMap::new(),
        manifest_calls: Vec::new(),
    };

    let (variant, fit) = resolve_with_registry(
        &mut registry,
        "m",
        &hw(20_000_000_000, 64_000_000_000, 100_000_000_000),
        &opts(),
    )
    .unwrap();

    assert_eq!(variant.tag, "7b-q4_K_M");
    assert!(fit.fits());
    // rank_candidates sorts 14b before 7b (descending); both are primary
    assert_eq!(registry.manifest_calls, vec!["14b-q4_K_M", "7b-q4_K_M"]);
}

#[test]
fn resolve_fails_fast_on_manifest_unavailable() {
    // Use large enough VRAM so 14b is primary (not approx-deferred)
    let mut registry = FakeRegistry {
        tags: vec![
            tag("14b-q4_K_M", Some("9GB")),
            tag("7b-q4_K_M", Some("4GB")),
        ],
        manifests: HashMap::from([("7b-q4_K_M".into(), (4_000_000_000, 4_000_000_000))]),
        fatal_manifest_errors: HashMap::from([("14b-q4_K_M".into(), "timeout".into())]),
        manifest_calls: Vec::new(),
    };

    let err = resolve_with_registry(
        &mut registry,
        "m",
        &hw(20_000_000_000, 64_000_000_000, 100_000_000_000),
        &opts(),
    )
    .unwrap_err();

    assert!(matches!(
        err,
        ResolverError::ManifestUnavailable { model, tag, detail }
            if model == "m" && tag == "14b-q4_K_M" && detail == "timeout"
    ));
    assert_eq!(registry.manifest_calls, vec!["14b-q4_K_M"]);
}


#[test]
fn resolve_reports_all_missing_manifests_with_candidate_context() {
    // Use large enough VRAM so both candidates are primary
    let mut registry = FakeRegistry {
        tags: vec![
            tag("14b-q4_K_M", Some("9GB")),
            tag("7b-q4_K_M", Some("4GB")),
        ],
        manifests: HashMap::new(),
        fatal_manifest_errors: HashMap::new(),
        manifest_calls: Vec::new(),
    };

    let err = resolve_with_registry(
        &mut registry,
        "m",
        &hw(20_000_000_000, 64_000_000_000, 100_000_000_000),
        &opts(),
    )
    .unwrap_err();

    let ResolverError::NoUsableManifest { model, attempts } = err else {
        panic!("expected NoUsableManifest");
    };
    assert_eq!(model, "m");
    assert!(attempts.contains("- m:14b-q4_K_M: manifest missing; skipped"));
    assert!(attempts.contains("- m:7b-q4_K_M: manifest missing; skipped"));
    assert!(attempts.contains("fake registry has no such manifest"));
    // rank_candidates sorts 14b before 7b (descending)
    assert_eq!(registry.manifest_calls, vec!["14b-q4_K_M", "7b-q4_K_M"]);
}

#[test]
fn resolve_reports_manifest_lookup_cap_in_no_usable_manifest_error() {
    // Use large enough VRAM so 14b is primary (checked first)
    let mut registry = FakeRegistry {
        tags: vec![
            tag("14b-q4_K_M", Some("9GB")),
            tag("7b-q4_K_M", Some("4GB")),
        ],
        manifests: HashMap::new(),
        fatal_manifest_errors: HashMap::new(),
        manifest_calls: Vec::new(),
    };

    let err = resolve_with_registry(
        &mut registry,
        "m",
        &hw(20_000_000_000, 64_000_000_000, 100_000_000_000),
        &capped_opts(1),
    )
    .unwrap_err();

    let ResolverError::NoUsableManifest { attempts, .. } = err else {
        panic!("expected NoUsableManifest");
    };
    assert!(attempts.contains("- m:14b-q4_K_M: manifest missing; skipped"));
    assert!(attempts.contains("- m:7b-q4_K_M: not checked; --max-manifest-lookups reached"));
    assert_eq!(registry.manifest_calls, vec!["14b-q4_K_M"]);
}

#[test]
fn lookup_that_ends_the_search_counts() {
    let mut opts = opts();
    opts.max_manifest_lookups = Some(2);
    let machine = hw(20_000, 20_000, 20_000);
    let tag = tag_info_from_str("m", "7b", param_count("7b"));
    let (_, mut progress) = Progress::start(&vec![tag.clone()], &machine, &opts);
    let missing = ResolverError::ManifestMissing {
        model: "m".into(),
        tag: "7b".into(),
        detail: "HTTP 404".into(),
    };
    assert!(progress.record("m", &tag, false, &machine, &opts, Err(missing)).unwrap().is_none());
    assert!(!progress.is_capped(&opts));
    let fatal = ResolverError::Other("down".into());
    assert!(progress.record("m", &tag, false, &machine, &opts, Err(fatal)).is_err());
    assert!(progress.is_capped(&opts));
    let message = progress.conclude("m").unwrap_err().message();
    assert_eq!(message.matches("- m:7b: ").count(), 1);
}

#[test]
fn order_of_the_tag_list_does_not_matter() {
    let listed = vec![
        tag("latest", None),
        tag("70b-q4_K_M", Some("80GB")),
        tag("14b-q8_0", Some("9GB")),
        tag("14b-nvfp4", None),
        tag("14b-q4_K_M", Some("20GB")),
        tag("8b-base", Some("5GB")),
    ];
    let resolved = |tags: Vec<TagInfo>, opts: &ResolveOpts| {
        let mut registry = FakeRegistry {
            tags,
            manifests: HashMap::from([
                ("70b-q4_K_M".into(), (40_000_000_000, 40_000_000_000)),
                ("14b-q4_K_M".into(), (9_000_000_000, 9_000_000_000)),
                ("14b-q8_0".into(), (15_000_000_000, 15_000_000_000)),
            ]),
            fatal_manifest_errors: HashMap::new(),
            manifest_calls: Vec::new(),
        };
        let machine = hw(12_000_000_000, 64_000_000_000, 100_000_000_000);
        let outcome = resolve_with_registry_diagnostics(&mut registry, "m", &machine, opts);
        (format!("{outcome:?}"), registry.manifest_calls)
    };
    for opts in [opts(), capped_opts(2), capped_opts(4)] {
        let first = resolved(listed.clone(), &opts);
        assert!(first.1.len() >= 2);
        for turn in 0..listed.len() {
            let mut tags = listed.clone();
            tags.rotate_left(turn);
            assert_eq!(resolved(tags.clone(), &opts), first);
            tags.reverse();
            assert_eq!(resolved(tags, &opts), first);
        }
    }
}
