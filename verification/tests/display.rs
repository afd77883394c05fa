use ollama_model_resolver::display::{
    print_fit_indicator, print_hardware, print_library_results_with_size,
    print_library_results_with_size_compact, print_local_models, print_macos_only_note,
    print_resolution_diagnostics, print_resolve_result, print_search_ranking_note,
    print_search_results, print_search_results_compact, print_search_results_unannotated,
    print_search_results_unannotated_compact, truncate, Block, GpuPct, ShownRow, Style,
};
use ollama_model_resolver::resolver::{CandidateTrace, ResolutionDiagnostics};
use ollama_model_resolver::types::{
    AnnotatedSearchResult, FilteredReason, FitResult, GpuFitPolicy, GpuInfo, HardwareProfile,
    ModelVariant, ParamCount, SearchResult,
};

fn text(block: &Block) -> String {
    match block {
        Block::Line(spans) => spans.iter().map(|span| span.text.as_str()).collect(),
        Block::Table { header, rows } => {
            let mut lines = vec![header.join("|")];
            for row in rows {
                let cells: Vec<&str> = row.iter().map(|span| span.text.as_str()).collect();
                lines.push(cells.join("|"));
            }
            lines.join("\n")
        }
    }
}

fn texts(blocks: &[Block]) -> Vec<String> {
    blocks.iter().map(text).collect()
}

fn hw() -> HardwareProfile {
    HardwareProfile {
        gpu_name: Some("A\u{1b} (GPU 0)".to_string()),
        vram_total: 3 * 1024 * 1024 * 1024,
        vram_free: 3 * 1024 * 1024 * 1024,
        ram_total: 2048,
        ram_available: 1000,
        disk_free: 1536,
        models_dir: "/models".to_string(),
        gpus: vec![GpuInfo {
            index: 0,
            uuid: None,
            name: "A".to_string(),
            vram_total: 1,
            vram_free: 1,
            visible: true,
        }],
        selected_gpu_indices: vec![0],
        cuda_visible_devices: Some("0".to_string()),
        gpu_fit_policy: GpuFitPolicy::Best,
        unified_mem_total: 0,
    }
}

fn pct() -> GpuPct {
    GpuPct { rounded: "57".to_string(), whole: "56".to_string() }
}

fn variant() -> ModelVariant {
    ModelVariant {
        name: "m".to_string(),
        tag: "7b".to_string(),
        full_ref: "m:7b".to_string(),
        weights_bytes: 1023,
        total_bytes: 1024,
        estimated_runtime_bytes: 5 * 1024 * 1024,
        runtime_margin_pct: 20,
        context_tokens: 8192,
        param_billions: Some(ParamCount { bits: 7.0_f64.to_bits() }),
        quantization: Some("q4_K_M".to_string()),
        is_instruct: true,
    }
}

fn result(name: &str) -> SearchResult {
    SearchResult {
        name: name.to_string(),
        description: "words".to_string(),
        pulls: "1M".to_string(),
        tag_count: "3".to_string(),
        updated: "now".to_string(),
    }
}

fn row(name: &str, fit: Option<FitResult>, filtered: Option<FilteredReason>) -> ShownRow {
    ShownRow {
        row: AnnotatedSearchResult {
            result: result(name),
            variant: fit.map(|_| variant()),
            fit,
            error: None,
            filtered,
        },
        gpu_pct: pct(),
    }
}

#[test]
fn hardware_summary_is_exact() {
    let blocks = print_hardware(&hw());
    assert_eq!(
        texts(&blocks),
        vec![
            "Hardware Profile",
            "  GPU:           A\u{fffd} (GPU 0)",
            "  NVIDIA GPUs:   1 detected, 1 CUDA-visible, 1 used for fit",
            "  CUDA_VISIBLE:  0",
            "  VRAM basis:    3.0 GiB",
            "  RAM:           1000 B / 2.0 KiB",
            "  Disk free:     1.5 KiB",
            "  Models dir:    /models",
            "  GPU policy:    best",
            "  Fit basis:     single CUDA-visible NVIDIA GPU with the most free VRAM",
            "",
        ]
    );
    let Block::Line(spans) = &blocks[4] else { panic!("expected a line") };
    assert_eq!(spans[1].style, Style::Dimmed);
    assert_eq!(spans[3].style, Style::Green);
}

#[test]
fn shared_memory_has_no_vram_line() {
    let mut machine = hw();
    machine.unified_mem_total = machine.vram_total;
    machine.gpus = Vec::new();
    machine.cuda_visible_devices = None;
    machine.gpu_name = None;
    assert_eq!(
        texts(&print_hardware(&machine))[1..3],
        ["  GPU:           none selected".to_string(), "  RAM:           1000 B / 2.0 KiB".to_string()]
    );
}

#[test]
fn wide_rows_show_verdict_or_reason() {
    let mut failed = row("e", None, None);
    failed.row.error = Some("bad\nerror".to_string());
    let rows = vec![
        row("a", Some(FitResult::FitsWithSplit { gpu_bytes: 57, need: 100 }), None),
        row("b", Some(FitResult::MacosOnly), None),
        row("c", None, Some(FilteredReason::CloudOnly)),
        row("d", None, Some(FilteredReason::PlatformRestricted)),
        failed,
        row("f", None, None),
    ];
    let blocks = print_search_results(&rows, &hw(), 1, 0, 2);
    assert_eq!(
        text(&blocks[11]),
        "Model|Best variant|Fit|Weights|Pulls|Tags|Updated|Description\n\
         a|m:7b|fits with split (57% GPU)|1023 B|1M|3|now|words\n\
         b|m:7b|macOS-only|—|1M|3|now|words\n\
         c|-|cloud-only|-|1M|3|now|words\n\
         d|-|macOS-only|-|1M|3|now|words\n\
         e|-|bad\u{fffd}error|-|1M|3|now|words\n\
         f|-|unavailable|-|1M|3|now|words"
    );
    assert_eq!(
        text(&blocks[12]),
        "  1 cloud-only, 2 does not fit hidden. Use --all to show all models."
    );
    let Block::Table { rows, .. } = &blocks[11] else { panic!("expected a table") };
    let styles: Vec<Style> = rows.iter().map(|cells| cells[2].style).collect();
    assert_eq!(
        styles,
        vec![Style::Yellow, Style::Cyan, Style::Dimmed, Style::Cyan, Style::Dimmed, Style::Dimmed]
    );
}

#[test]
fn compact_rows_line_up() {
    let rows = vec![
        row("a", Some(FitResult::FitsVram), None),
        row("b", Some(FitResult::FitsWithSplit { gpu_bytes: 57, need: 100 }), None),
        row("c", None, Some(FilteredReason::CloudOnly)),
    ];
    let blocks = print_search_results_compact(&rows, &hw(), 0, 0, 0);
    assert_eq!(blocks.len(), 15);
    assert_eq!(
        text(&blocks[12]),
        format!("  {:<32} {:<16}   ✓ fits GPU   1023 B   1M   3       now   words", "a", "m:7b")
    );
    let Block::Line(spans) = &blocks[13] else { panic!("expected a line") };
    assert_eq!((spans[1].text.as_str(), spans[1].width, spans[1].style), ("~ 56% GPU", 18, Style::Green));
    assert_eq!(
        text(&blocks[14]),
        format!("  {:<32} -   cloud-only   -   1M   3       now   words", "c")
    );
}

#[test]
fn plain_lists_show_what_the_page_says() {
    let results = vec![result("a")];
    assert_eq!(
        text(&print_search_results_unannotated(&results)[2]),
        "Model|Pulls|Tags|Updated|Description\na|1M|3|now|words"
    );
    assert_eq!(
        text(&print_search_results_unannotated_compact(&results)[1]),
        format!("  {:<32} {:<13} {:<6} {:<15} words", "a", "1M", "3", "now")
    );
    let rows = vec![(result("a"), Some("1GB".to_string())), (result("b"), None)];
    assert_eq!(
        text(&print_library_results_with_size(&rows)[1]),
        "Model|Size|Pulls|Tags|Updated|Description\na|1GB|1M|3|now|words\nb|—|1M|3|now|words"
    );
    assert_eq!(
        text(&print_library_results_with_size_compact(&rows)[2]),
        format!("  {:<32} {:<18} {:<13} {:<6} {:<15} words", "b", "—", "1M", "3", "now")
    );
}

#[test]
fn resolved_model_is_described() {
    let fit = FitResult::DoesNotFit { need: 2048, have: 7 };
    let blocks = print_resolve_result(&variant(), &fit, &hw(), &pct(), "7.0");
    let lines = texts(&blocks);
    assert_eq!(
        lines[11..20],
        [
            "Resolved Model".to_string(),
            "  Model:         m:7b".to_string(),
            "  Weights:       1023 B".to_string(),
            "  Approx. pull:  1.0 KiB".to_string(),
            "  Est. runtime:  5.0 MiB".to_string(),
            "  Context:       8192 tokens".to_string(),
            "  Margin:        20%".to_string(),
            "  Parameters:    7.0B (tag hint)".to_string(),
            "  Quantization:  q4_K_M (tag hint)".to_string(),
        ]
    );
    assert_eq!(lines[25], "  ✗ Does not fit: need 2.0 KiB, have 7 B");
    assert_eq!(lines.len(), 27);
}

#[test]
fn indicators_name_each_verdict() {
    let first = |fit: FitResult| text(&print_fit_indicator(&fit, &pct())[0]);
    assert_eq!(first(FitResult::FitsVram), "  ✓ Fits the selected GPU VRAM basis");
    assert_eq!(
        first(FitResult::FitsWithSplit { gpu_bytes: 57, need: 100 }),
        "  ~ Fits with VRAM/RAM split (57% GPU)"
    );
    assert_eq!(first(FitResult::FitsRamOnly), "  ~ Fits in RAM for CPU inference");
    assert_eq!(
        first(FitResult::InsufficientDisk { need: 9, have: 8 }),
        "  ✗ Estimated disk shortfall: approximately need 9 B, have 8 B"
    );
}

fn trace(name: &str, decision: &str) -> CandidateTrace {
    CandidateTrace {
        full_ref: name.to_string(),
        approx_size: None,
        decision: decision.to_string(),
    }
}

#[test]
fn reasoning_lists_each_candidate_once() {
    let mut diagnostics = ResolutionDiagnostics::default();
    assert!(print_resolution_diagnostics(&diagnostics).is_empty());
    diagnostics.manifest_checked = vec![trace("m:a", "does not fit")];
    diagnostics.manifest_skipped_by_cap = vec![trace("m:b", "not checked")];
    diagnostics.approx_deferred = vec![trace("m:a", "deferred"), trace("m:c", "deferred")];
    diagnostics.manifest_checked[0].approx_size = Some("9GB".to_string());
    let blocks = print_resolution_diagnostics(&diagnostics);
    assert_eq!(
        texts(&blocks),
        vec![
            "Resolution Reasoning",
            "Candidate|Page size|Manifest|Decision\n\
             m:a|9GB|checked|does not fit\n\
             m:b|-|not checked|not checked\n\
             m:c|-|deferred|deferred",
        ]
    );
}

#[test]
fn reasoning_stops_at_twenty_rows() {
    let mut diagnostics = ResolutionDiagnostics::default();
    for i in 0..15 {
        diagnostics.manifest_checked.push(trace(&format!("m:{i}"), "x"));
        diagnostics.manifest_skipped_by_cap.push(trace(&format!("m:s{i}"), "x"));
        diagnostics.approx_deferred.push(trace(&format!("m:d{i}"), "x"));
    }
    let blocks = print_resolution_diagnostics(&diagnostics);
    let Block::Table { rows, .. } = &blocks[1] else { panic!("expected a table") };
    assert_eq!(rows.len(), 20);
    assert_eq!(rows[19][0].text, "m:s4");
}

#[test]
fn local_models_are_listed_with_sizes() {
    assert_eq!(texts(&print_local_models(&Vec::new())), vec!["No local models found."]);
    let models = vec![("m:7b".to_string(), 4_700_000_000)];
    assert_eq!(
        texts(&print_local_models(&models)),
        vec!["Local Models", "Model|Size\nm:7b|4.4 GiB"]
    );
}

#[test]
fn notes_follow_the_rows() {
    let rows = vec![
        row("a", Some(FitResult::MacosOnly), None).row,
        row("b", None, Some(FilteredReason::PlatformRestricted)).row,
        row("c", Some(FitResult::FitsVram), None).row,
    ];
    assert_eq!(
        texts(&print_macos_only_note(&rows)),
        vec!["  2 macOS-only model(s): these require macOS to run; size/fit is gated by Ollama and not verified here."]
    );
    assert!(print_macos_only_note(&Vec::new()).is_empty());
    assert_eq!(print_search_ranking_note().len(), 1);
}

#[test]
fn long_texts_are_cut() {
    assert_eq!(truncate("abc", 3), "abc");
    assert_eq!(truncate("abcd", 3), "ab…");
    assert_eq!(truncate("a\tcd", 3), "a\u{fffd}…");
    assert_eq!(truncate("abcd", 0), "…");
}
