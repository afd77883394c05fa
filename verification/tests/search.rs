use ollama_model_resolver::cache::CachedRegistry;
use ollama_model_resolver::error::ResolverError;
use ollama_model_resolver::fit::ResolveOpts;
use ollama_model_resolver::registry::{
    manifest_refusal, manifest_sizes, rank_search_results, relevance_score, ManifestLayer, Registry,
};
use ollama_model_resolver::search::{
    annotate_macos_only, annotate_search_result, cap_rows, filter_search_rows, library_rows,
    macos_only_rows, search_rows, size_range_label,
};
use ollama_model_resolver::types::{
    is_macos_only_tag, param_literal, tag_info_from_str, AnnotatedSearchResult, FilteredReason,
    FitResult, GpuFitPolicy, HardwareProfile, ParamCount, ParamLiteral, SearchResult, TagInfo,
};

fn param_count(tag: &str) -> Option<ParamCount> {
    let billions = match param_literal(tag)? {
        ParamLiteral::Plain { number } => number.parse::<f64>().ok()?,
        ParamLiteral::Product { experts, each } => {
            experts.parse::<f64>().ok()? * each.parse::<f64>().ok()?
        }
    };
    Some(ParamCount { bits: billions.to_bits() })
}

fn tag(model: &str, tag: &str) -> TagInfo {
    tag_info_from_str(model, tag, param_count(tag))
}

fn search_result(name: &str) -> SearchResult {
    SearchResult {
        name: name.into(),
        description: format!("description for {name}"),
        pulls: "1M Pulls".into(),
        tag_count: "10 Tags".into(),
        updated: String::new(),
    }
}

fn annotated_row(
    name: &str,
    filtered: Option<FilteredReason>,
    fit: Option<FitResult>,
) -> AnnotatedSearchResult {
    AnnotatedSearchResult {
        result: search_result(name),
        variant: None,
        fit,
        error: None,
        filtered,
    }
}

/// Minimal registry that only serves a fixed tag list (annotate_macos_only
/// never fetches manifests).
struct TagOnlyRegistry {
    tags: Vec<TagInfo>,
}

impl Registry for TagOnlyRegistry {
    fn list_tags(&mut self, _model: &str) -> Result<Vec<TagInfo>, ResolverError> {
        Ok(self.tags.clone())
    }
    fn get_manifest_size(&mut self, _model: &str, _tag: &str) -> Result<(u64, u64), ResolverError> {
        Err(ResolverError::Other("get_manifest_size not used here".into()))
    }
}

#[test]
fn annotate_macos_only_picks_largest_macos_variant() {
    let mut reg = TagOnlyRegistry {
        tags: vec![
            tag("qwen3.5", "9b"),
            tag("qwen3.5", "9b-nvfp4"),
            tag("qwen3.5", "32b-nvfp4"),
        ],
    };
    let row = annotate_macos_only(&mut reg, search_result("qwen3.5"))
        .expect("model offers a macOS-only variant");
    assert!(matches!(row.fit, Some(FitResult::MacosOnly)));
    assert_eq!(row.variant.unwrap().tag, "32b-nvfp4"); // largest macOS-only variant
}

#[test]
fn annotate_macos_only_none_without_macos_variant() {
    let mut reg = TagOnlyRegistry {
        tags: vec![
            tag("qwen3", "8b"),
            tag("qwen3", "14b-q4_K_M"),
        ],
    };
    assert!(annotate_macos_only(&mut reg, search_result("qwen3")).is_none());
}

#[test]
fn macos_variant_without_a_number_goes_by_name() {
    let picked = |tags: Vec<TagInfo>| {
        let mut reg = TagOnlyRegistry { tags };
        annotate_macos_only(&mut reg, search_result("m")).unwrap().variant.unwrap().tag
    };
    assert!(f64::from_bits(param_count("nanx7b-nvfp4").unwrap().bits).is_nan());
    assert_eq!(picked(vec![tag("m", "9b-nvfp4"), tag("m", "nanx7b-nvfp4")]), "nanx7b-nvfp4");
    assert_eq!(picked(vec![tag("m", "nanx7b-nvfp4"), tag("m", "9b-nvfp4")]), "nanx7b-nvfp4");
    assert_eq!(picked(vec![tag("m", "nanx7b-nvfp4"), tag("m", "o-nvfp4")]), "o-nvfp4");
    assert_eq!(picked(vec![tag("m", "z-nvfp4"), tag("m", "1b-nvfp4")]), "1b-nvfp4");
}

fn names(rows: &[AnnotatedSearchResult]) -> Vec<String> {
    rows.iter().map(|r| r.result.name.clone()).collect()
}

#[test]
fn filter_hides_cloud_and_nonfitting_under_fit() {
    let mut rows = vec![
        annotated_row("cloud", Some(FilteredReason::CloudOnly), None),
        annotated_row("too-big", None, Some(FitResult::DoesNotFit { need: 10, have: 1 })),
        annotated_row("fits", None, Some(FitResult::FitsVram)),
    ];
    let counts = filter_search_rows(&mut rows, true, false);
    assert_eq!(counts, (1, 1)); // 1 cloud, 1 non-fitting hidden
    assert_eq!(names(&rows), vec!["fits"]);
}

#[test]
fn filter_all_keeps_everything() {
    let mut rows = vec![
        annotated_row("cloud", Some(FilteredReason::CloudOnly), None),
        annotated_row("too-big", None, Some(FitResult::DoesNotFit { need: 10, have: 1 })),
        annotated_row("fits", None, Some(FitResult::FitsVram)),
    ];
    let counts = filter_search_rows(&mut rows, true, true);
    assert_eq!(counts, (0, 0));
    assert_eq!(rows.len(), 3);
}

#[test]
fn cap_rows_reserves_slots_for_macos_only() {
    let normal = vec![
        annotated_row("a", None, Some(FitResult::FitsVram)),
        annotated_row("b", None, Some(FitResult::FitsVram)),
        annotated_row("c", None, Some(FitResult::FitsVram)),
    ];
    let macos = vec![annotated_row("m", None, Some(FitResult::MacosOnly))];
    let rows = cap_rows(normal, macos, 3);
    // 1 slot reserved for macOS-only → 2 runnable + 1 macOS-only, runnable first.
    assert_eq!(names(&rows), vec!["a", "b", "m"]);
}

#[test]
fn cap_rows_runnable_fill_when_no_macos() {
    let normal = vec![
        annotated_row("a", None, Some(FitResult::FitsVram)),
        annotated_row("b", None, Some(FitResult::FitsVram)),
        annotated_row("c", None, Some(FitResult::FitsVram)),
    ];
    let rows = cap_rows(normal, vec![], 2);
    assert_eq!(names(&rows), vec!["a", "b"]);
}

#[test]
fn is_macos_only_tag_detects_nvfp4() {
    assert!(is_macos_only_tag("9b-nvfp4"));
    assert!(is_macos_only_tag("35b-a3b-NVFP4"));
    assert!(!is_macos_only_tag("9b"));
    assert!(!is_macos_only_tag("14b-q4_K_M"));
}

/// Serves tags and manifests by model name, and notes what it is asked for.
struct Library {
    tags: Vec<(&'static str, Vec<TagInfo>)>,
    sizes: Vec<(&'static str, u64)>,
    asked: Vec<String>,
}

impl Registry for Library {
    fn list_tags(&mut self, model: &str) -> Result<Vec<TagInfo>, ResolverError> {
        self.asked.push(model.to_string());
        for (name, tags) in &self.tags {
            if *name == model {
                return Ok(tags.clone());
            }
        }
        Err(ResolverError::NoTags { model: model.to_string() })
    }

    fn get_manifest_size(&mut self, model: &str, tag: &str) -> Result<(u64, u64), ResolverError> {
        let full = format!("{model}:{tag}");
        self.asked.push(full.clone());
        if is_macos_only_tag(tag) {
            return Err(manifest_refusal(model, tag, 412));
        }
        for (name, size) in &self.sizes {
            if *name == full {
                return Ok((*size, *size));
            }
        }
        Err(ResolverError::ManifestCloudOnly { model: model.to_string(), tag: tag.to_string() })
    }
}

fn library() -> Library {
    Library {
        tags: vec![
            ("gemma", vec![tag("gemma", "7b")]),
            ("glm", vec![tag("glm", "9b"), tag("glm", "9b-nvfp4")]),
            ("glm-cloud", vec![tag("glm-cloud", "cloud")]),
            ("glm-mac", vec![tag("glm-mac", "4b-nvfp4")]),
            ("glm-big", vec![tag("glm-big", "70b")]),
        ],
        sizes: vec![("gemma:7b", 40), ("glm:9b", 50), ("glm-big:70b", 500)],
        asked: Vec::new(),
    }
}

fn machine() -> HardwareProfile {
    HardwareProfile {
        gpu_name: None,
        vram_total: 0,
        vram_free: 0,
        ram_total: 100,
        ram_available: 100,
        disk_free: 1000,
        models_dir: "/tmp".to_string(),
        gpus: Vec::new(),
        selected_gpu_indices: Vec::new(),
        cuda_visible_devices: None,
        gpu_fit_policy: GpuFitPolicy::Best,
        unified_mem_total: 0,
    }
}

fn options(fit_filter: bool, all: bool) -> ResolveOpts {
    ResolveOpts {
        allow_split: false,
        margin_pct: 20,
        context_tokens: 8192,
        max_manifest_lookups: Some(5),
        fit_filter,
        all,
    }
}

fn found() -> Vec<SearchResult> {
    vec![
        search_result("gemma"),
        search_result("glm-cloud"),
        search_result("glm-mac"),
        search_result("glm-big"),
        search_result("glm"),
    ]
}

fn shown(rows: &[AnnotatedSearchResult]) -> Vec<String> {
    rows.iter()
        .map(|row| match &row.variant {
            Some(variant) => variant.full_ref.clone(),
            None => row.result.name.clone(),
        })
        .collect()
}

#[test]
fn search_shows_runnable_models_and_counts_the_rest() {
    let mut registry = library();
    let page = search_rows(&mut registry, "glm", 10, &machine(), &options(false, false), found(), false);
    assert_eq!(shown(&page.rows), vec!["glm:9b", "glm-big:70b", "gemma:7b"]);
    assert_eq!((page.cloud_hidden, page.macos_hidden, page.fit_hidden), (1, 2, 0));
    assert_eq!(
        registry.asked,
        vec![
            "glm", "glm", "glm:9b", "glm-cloud", "glm-cloud", "glm-cloud:cloud", "glm-mac",
            "glm-mac", "glm-mac:4b-nvfp4", "glm-big", "glm-big", "glm-big:70b", "gemma", "gemma:7b"
        ]
    );
}

#[test]
fn cache_asks_once_for_the_same_thing() {
    let mut registry = CachedRegistry::new(library());
    let page = search_rows(&mut registry, "glm", 10, &machine(), &options(false, false), found(), false);
    assert_eq!(shown(&page.rows), vec!["glm:9b", "glm-big:70b", "gemma:7b"]);
    assert_eq!(registry.get_manifest_size("glm", "9b"), Ok((50, 50)));
    assert!(registry.list_tags("nothing").is_err());
    assert!(registry.list_tags("nothing").is_err());
    assert_eq!(
        registry.into_inner().asked,
        vec![
            "glm", "glm:9b", "glm-cloud", "glm-cloud:cloud", "glm-mac", "glm-mac:4b-nvfp4",
            "glm-big", "glm-big:70b", "gemma", "gemma:7b", "nothing", "nothing"
        ]
    );
}

#[test]
fn search_with_fit_hides_what_does_not_fit() {
    let mut registry = library();
    let page = search_rows(&mut registry, "glm", 10, &machine(), &options(true, false), found(), false);
    assert_eq!(shown(&page.rows), vec!["glm:9b", "gemma:7b"]);
    assert_eq!((page.cloud_hidden, page.macos_hidden, page.fit_hidden), (1, 2, 1));
}

#[test]
fn search_with_all_hides_nothing() {
    let mut registry = library();
    let page = search_rows(&mut registry, "glm", 10, &machine(), &options(false, true), found(), false);
    assert_eq!(
        shown(&page.rows),
        vec!["glm:9b", "glm-cloud", "glm-big:70b", "gemma:7b", "glm:9b-nvfp4", "glm-mac:4b-nvfp4"]
    );
    assert_eq!((page.cloud_hidden, page.macos_hidden, page.fit_hidden), (0, 0, 0));
}

#[test]
fn search_on_macos_shows_macos_rows_last_within_the_limit() {
    let mut registry = library();
    let page = search_rows(&mut registry, "glm", 3, &machine(), &options(false, false), found(), true);
    assert_eq!(shown(&page.rows), vec!["glm:9b", "glm:9b-nvfp4", "glm-mac:4b-nvfp4"]);
    assert_eq!(page.macos_hidden, 0);
}

#[test]
fn macos_search_drops_unrelated_models() {
    let mut registry = library();
    let rows = macos_only_rows(&mut registry, "glm", 1, found());
    assert_eq!(shown(&rows), vec!["glm:9b-nvfp4"]);
    assert_eq!(registry.asked, vec!["glm", "glm-cloud", "glm-mac", "glm-big"]);
}

#[test]
fn quick_browse_gives_size_ranges() {
    let mut registry = library();
    registry.tags[1].1[0].approx_size = Some("5.5GB".into());
    registry.tags[1].1[1].approx_size = Some("900MB".into());
    let rows = library_rows(&mut registry, "glm", 2, found());
    let sizes: Vec<(String, Option<String>)> =
        rows.into_iter().map(|(result, size)| (result.name, size)).collect();
    assert_eq!(
        sizes,
        vec![
            ("glm".to_string(), Some("900MB - 5.5GB".to_string())),
            ("glm-cloud".to_string(), None)
        ]
    );
    assert_eq!(registry.asked, vec!["glm", "glm-cloud"]);
}

#[test]
fn size_range_of_one_size_is_that_size() {
    let mut one = tag("m", "7b");
    one.approx_size = Some("4.7GB".into());
    let two = tag("m", "9b");
    assert_eq!(size_range_label(&vec![one, two]), Some("4.7GB".to_string()));
    assert_eq!(size_range_label(&vec![tag("m", "9b")]), None);
}

#[test]
fn relevance_goes_by_name_and_its_parts() {
    assert_eq!(relevance_score("GLM", "glm"), 3);
    assert_eq!(relevance_score("qwen", "qwen2.5-coder"), 2);
    assert_eq!(relevance_score("coder", "qwen2.5-coder"), 1);
    assert_eq!(relevance_score("emma", "gemma4"), 0);
    assert_eq!(relevance_score("llama", "codellama"), 0);
}

#[test]
fn ranking_keeps_popularity_within_a_tier() {
    let results = vec![
        search_result("gemma4"),
        search_result("chat-glm"),
        search_result("glm-4"),
        search_result("qwen"),
        search_result("glm"),
        search_result("glm-5"),
    ];
    let ranked: Vec<String> =
        rank_search_results(results, "glm").into_iter().map(|result| result.name).collect();
    assert_eq!(ranked, vec!["glm", "glm-4", "glm-5", "chat-glm", "gemma4", "qwen"]);
}

#[test]
fn errors_become_rows_with_their_reason() {
    let mut registry = library();
    let row = annotate_search_result(&mut registry, search_result("glm-mac"), &machine(), &options(false, false));
    assert_eq!(row.filtered, Some(FilteredReason::PlatformRestricted));
    assert_eq!(
        row.error.as_deref(),
        Some("platform-restricted model for 'glm-mac:4b-nvfp4' (registry returned 412)")
    );
    let row = annotate_search_result(&mut registry, search_result("unknown"), &machine(), &options(false, false));
    assert_eq!(row.filtered, None);
    assert_eq!(row.error.as_deref(), Some("no tags found for model 'unknown'"));
}

fn layer(media_type: &str, size: u64) -> ManifestLayer {
    ManifestLayer { media_type: media_type.to_string(), size }
}

#[test]
fn manifest_sizes_add_up_layers() {
    let layers = vec![
        layer("application/vnd.ollama.image.model", 4_683_074_048),
        layer("application/vnd.ollama.image.system", 68),
        layer("application/vnd.ollama.image.model", 2),
        layer("application/vnd.ollama.image.license", 11_343),
    ];
    assert_eq!(manifest_sizes("m", "t", &layers), Ok((4_683_074_050, 4_683_085_461)));
}

#[test]
fn manifest_without_weights_is_cloud_only() {
    let layers = vec![layer("application/vnd.ollama.image.system", 68)];
    assert_eq!(
        manifest_sizes("m", "t", &layers),
        Err(ResolverError::ManifestCloudOnly { model: "m".into(), tag: "t".into() })
    );
}

#[test]
fn manifest_sizes_that_overflow_are_invalid() {
    let layers = vec![
        layer("application/vnd.ollama.image.model", u64::MAX),
        layer("application/vnd.ollama.image.license", 1),
    ];
    assert!(matches!(
        manifest_sizes("m", "t", &layers),
        Err(ResolverError::ManifestInvalid { .. })
    ));
}

#[test]
fn refused_manifests_map_to_errors() {
    assert!(matches!(manifest_refusal("m", "t", 404), ResolverError::ManifestMissing { .. }));
    assert!(matches!(
        manifest_refusal("m", "t", 412),
        ResolverError::ManifestPlatformRestricted { status: 412, .. }
    ));
    assert_eq!(
        manifest_refusal("m", "t", 503),
        ResolverError::ManifestUnavailable {
            model: "m".into(),
            tag: "t".into(),
            detail: "HTTP 503".into()
        }
    );
}
