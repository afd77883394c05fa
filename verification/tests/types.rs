use ollama_model_resolver::types::{
    is_instruct_tag, param_literal, parse_human_size_bytes, parse_quantization, tag_info_from_str,
    FitResult, GpuFitPolicy, ParamCount, ParamLiteral,
};

fn parse_param_billions(tag: &str) -> Option<f64> {
    match param_literal(tag)? {
        ParamLiteral::Plain { number } => number.parse::<f64>().ok(),
        ParamLiteral::Product { experts, each } => {
            Some(experts.parse::<f64>().ok()? * each.parse::<f64>().ok()?)
        }
    }
}

#[test]
fn parses_parameter_counts() {
    assert_eq!(parse_param_billions("7b"), Some(7.0));
    assert_eq!(parse_param_billions("0.5b-instruct-q4_K_M"), Some(0.5));
    assert_eq!(parse_param_billions("8x7b-q4_0"), Some(56.0));
    assert_eq!(parse_param_billions("latest"), None);
}

#[test]
fn parses_quantization_labels() {
    assert_eq!(parse_quantization("14b-instruct-q4_K_M"), Some("q4_K_M".into()));
    assert_eq!(parse_quantization("70b-fp16"), Some("fp16".into()));
    assert_eq!(parse_quantization("7b"), None);
}

#[test]
fn parses_tag_page_size_hints() {
    assert_eq!(parse_human_size_bytes("4.7GB"), Some(4_700_000_000));
    assert_eq!(parse_human_size_bytes("512 MB"), Some(512_000_000));
    assert_eq!(parse_human_size_bytes("n/a"), None);
}

#[test]
fn exposes_approx_size_bytes_on_tags() {
    let mut tag = tag_info_from_str("m", "7b", None);
    tag.approx_size = Some("1.5GB".into());
    assert_eq!(tag.approx_size_bytes(), Some(1_500_000_000));
}

#[test]
fn marks_base_tags_lower_priority() {
    assert!(is_instruct_tag("7b-instruct-q4_K_M"));
    assert!(!is_instruct_tag("7b-base-q4_K_M"));
}

#[test]
fn bit_patterns_order_parameter_counts() {
    let small = ParamCount { bits: 0.5_f64.to_bits() };
    let large = ParamCount { bits: 70.0_f64.to_bits() };
    assert!(small.bits < large.bits);
    assert_eq!(f64::from_bits(large.bits), 70.0);
}

#[test]
fn parameter_counts_stop_at_a_broken_product() {
    assert_eq!(parse_param_billions("mixtral-7b"), None);
    assert_eq!(parse_param_billions("instruct-7b"), Some(7.0));
    assert_eq!(parse_param_billions("1.2.3b"), None);
    assert_eq!(parse_param_billions("8X22B"), Some(176.0));
}

#[test]
fn size_labels_at_the_edges() {
    assert_eq!(parse_human_size_bytes(""), None);
    assert_eq!(parse_human_size_bytes("12"), None);
    assert_eq!(parse_human_size_bytes("GB"), None);
    assert_eq!(parse_human_size_bytes("1.2.3GB"), None);
    assert_eq!(parse_human_size_bytes(".5GB"), None);
    assert_eq!(parse_human_size_bytes("5.GB"), Some(5_000_000_000));
    assert_eq!(parse_human_size_bytes(" 1 . 5 tb "), Some(1_500_000_000_000));
    assert_eq!(parse_human_size_bytes("3B"), Some(3));
    assert_eq!(parse_human_size_bytes("0.0009KB"), Some(0));
    assert_eq!(parse_human_size_bytes("99999999999TB"), None);
    assert_eq!(parse_human_size_bytes("5GiB"), None);
}

#[test]
fn tags_are_read_in_full() {
    let tag = tag_info_from_str("qwen", "7b-base-fp16", None);
    assert_eq!(tag.tag, "7b-base-fp16");
    assert_eq!(tag.full_ref, "qwen:7b-base-fp16");
    assert_eq!(tag.quantization.as_deref(), Some("fp16"));
    assert!(!tag.is_instruct);
    assert!(!tag.has_default_quantization());
    assert!(tag_info_from_str("qwen", "latest", None).has_default_quantization());
    assert!(tag_info_from_str("qwen", "7b-q4_K_M", None).has_default_quantization());
}

#[test]
fn verdicts_have_summaries() {
    assert_eq!(FitResult::FitsVram.summary(""), "fits GPU VRAM basis");
    assert_eq!(
        FitResult::FitsWithSplit { gpu_bytes: 2, need: 5 }.summary("40"),
        "fits with split (40% GPU)"
    );
    assert_eq!(FitResult::FitsRamOnly.summary(""), "fits RAM / CPU");
    assert_eq!(FitResult::DoesNotFit { need: 2, have: 1 }.summary(""), "does not fit");
    assert_eq!(
        FitResult::InsufficientDisk { need: 2, have: 1 }.summary(""),
        "estimated disk shortfall"
    );
    assert!(!FitResult::MacosOnly.fits());
}

#[test]
fn policies_have_labels() {
    assert_eq!(GpuFitPolicy::Best.label(), "best");
    assert_eq!(GpuFitPolicy::VisibleSum.label(), "visible-sum");
    assert_eq!(GpuFitPolicy::AllSum.label(), "all-sum");
}
