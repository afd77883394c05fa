use ollama_model_resolver::cli::{Cli, Commands};
use ollama_model_resolver::command::{
    after_confirmation, after_resolution, check_exact_model, info_models, no_macos_models_message,
    pull_note, resolve_target, run, selected_model_note, split_note, LocalReading, NextStep, Task,
};
use ollama_model_resolver::endpoint::{base_url, is_loopback, validate_ollama_host};
use ollama_model_resolver::error::ResolverError;
use ollama_model_resolver::flow::{Choice, Searching, Verdict};
use ollama_model_resolver::parallel::{restore_order, worker_count, Handout};
use ollama_model_resolver::pull::{progress_text, pull_step, PullEvent};
use ollama_model_resolver::resolver::{ResolutionDiagnostics, ResolutionOutcome};
use ollama_model_resolver::sanitize::{terminal_line, terminal_text};
use ollama_model_resolver::scrape::{library_names, model_tags};
use ollama_model_resolver::selection::ModelSelectionOptions;
use ollama_model_resolver::types::{
    FitResult, GpuFitPolicy, HardwareProfile, ModelVariant, SearchResult,
};

fn cli(command: Commands) -> Cli {
    Cli {
        allow_split: true,
        margin: 25,
        ollama_host: "localhost".to_string(),
        ollama_port: 11434,
        allow_remote_ollama: false,
        max_manifest_lookups: None,
        pull_stall_timeout: 300,
        gpu_fit_policy: GpuFitPolicy::AllSum,
        context_tokens: 4096,
        command,
    }
}

fn search(no_fit: bool) -> Commands {
    Commands::Search {
        query: "qwen".to_string(),
        limit: 20,
        fit: true,
        no_fit,
        all: false,
        wide: true,
        macos: false,
    }
}

fn resolve(model: &str) -> Commands {
    Commands::Resolve {
        model: model.to_string(),
        quiet: false,
        select: Some(2),
        first: false,
        fail_on_ambiguous: false,
        yes: true,
    }
}

fn fault(cli: Cli) -> String {
    run(cli, true, true).unwrap_err().message()
}

#[test]
fn numbers_are_checked_in_order() {
    let mut request = cli(search(false));
    request.margin = 501;
    request.max_manifest_lookups = Some(0);
    request.pull_stall_timeout = 0;
    request.context_tokens = 0;
    assert_eq!(fault(request.clone()), "invalid input: --margin must be between 0 and 500");
    request.margin = 500;
    assert_eq!(
        fault(request.clone()),
        "invalid input: --max-manifest-lookups must be greater than 0"
    );
    request.max_manifest_lookups = Some(1);
    assert_eq!(
        fault(request.clone()),
        "invalid input: --pull-stall-timeout must be greater than 0"
    );
    request.pull_stall_timeout = 1;
    assert_eq!(fault(request.clone()), "invalid input: --context-tokens must be greater than 0");
    request.context_tokens = 1;
    assert!(run(request, true, true).is_ok());
}

#[test]
fn search_caps_lookups_unless_told_otherwise() {
    let Ok(Task::Search { opts, wide, gpu_fit_policy, .. }) = run(cli(search(false)), true, true)
    else {
        panic!("expected a search");
    };
    assert_eq!(opts.max_manifest_lookups, Some(5));
    assert!(opts.fit_filter && opts.allow_split && wide && !opts.all);
    assert_eq!((opts.margin_pct, opts.context_tokens), (25, 4096));
    assert_eq!(gpu_fit_policy, GpuFitPolicy::AllSum);

    let mut request = cli(search(false));
    request.max_manifest_lookups = Some(9);
    let Ok(Task::Search { opts, .. }) = run(request, true, true) else {
        panic!("expected a search");
    };
    assert_eq!(opts.max_manifest_lookups, Some(9));
}

#[test]
fn quick_search_needs_no_machine() {
    let mut request = cli(search(true));
    request.ollama_host = "remote.example".to_string();
    let Ok(Task::Browse { query, limit, wide }) = run(request, false, false) else {
        panic!("expected a browse");
    };
    assert_eq!((query.as_str(), limit, wide), ("qwen", 20, true));
}

#[test]
fn question_mark_decides_between_resolving_and_pulling() {
    let Ok(Task::Resolve { model, selection, yes, opts, port, pull_stall_timeout, .. }) =
        run(cli(resolve("qwen?")), true, true)
    else {
        panic!("expected a resolution");
    };
    assert_eq!(pull_stall_timeout, 300);
    assert_eq!((model.as_str(), selection.select, yes, port), ("qwen?", Some(2), true, 11434));
    assert!(selection.interactive);
    assert_eq!(opts.max_manifest_lookups, None);

    let mut request = cli(resolve("qwen:7b"));
    request.pull_stall_timeout = 900;
    let Ok(Task::PullExact { model, quiet, host, pull_stall_timeout, .. }) =
        run(request, true, true)
    else {
        panic!("expected a pull");
    };
    assert_eq!(pull_stall_timeout, 900);
    assert_eq!((model.as_str(), quiet, host.as_str()), ("qwen:7b", false, "localhost"));
}

#[test]
fn remote_hosts_are_refused_before_anything_else() {
    let mut request = cli(Commands::Resolve {
        model: "qwen?".to_string(),
        quiet: true,
        select: Some(0),
        first: true,
        fail_on_ambiguous: true,
        yes: false,
    });
    request.ollama_host = "http://192.0.2.10:11434".to_string();
    assert_eq!(
        fault(request.clone()),
        "invalid input: --ollama-host 'http://192.0.2.10:11434' is not a loopback address; pass --allow-remote-ollama to use it"
    );
    request.allow_remote_ollama = true;
    assert!(fault(request.clone()).contains("--select must be"));
    request.command = Commands::Info;
    assert!(matches!(run(request, true, true), Ok(Task::Info { .. })));
}

#[test]
fn loopback_is_told_apart() {
    for host in [
        "127.0.0.1",
        "localhost",
        "LOCALHOST",
        "::1",
        "[::1]",
        "http://localhost",
        "https://127.0.0.1:8080/api",
        "HTTP://[::1]:11434/",
    ] {
        assert!(is_loopback(host), "{host}");
    }
    for host in [
        "",
        "192.0.2.1",
        "localhost.example",
        "http://localhost.example",
        "http://localhost:80x",
        "http://user@localhost",
        "http://[::1]x",
        "http://::1",
        "ftp://localhost",
    ] {
        assert!(!is_loopback(host), "{host}");
    }
    assert!(validate_ollama_host("192.0.2.1", true).is_ok());
    assert!(validate_ollama_host("192.0.2.1", false).is_err());
}

#[test]
fn base_urls_are_built() {
    assert_eq!(base_url("127.0.0.1", 11434), "http://127.0.0.1:11434");
    assert_eq!(base_url("::1", 80), "http://[::1]:80");
    assert_eq!(base_url("[::1]", 80), "http://[::1]:80");
    assert_eq!(base_url("https://host:1/x//", 80), "https://host:1/x");
}

#[test]
fn target_is_the_name_before_the_question_mark() {
    assert_eq!(resolve_target("qwen?").unwrap(), "qwen");
    assert_eq!(resolve_target("qwen??").unwrap(), "qwen?");
    assert_eq!(resolve_target("?").unwrap_err().message(), "invalid input: model name cannot be empty");
    assert_eq!(
        resolve_target("qwen").unwrap_err().message(),
        "invalid input: resolve input must end with '?'"
    );
}

fn outcome(fit: FitResult) -> ResolutionOutcome {
    ResolutionOutcome {
        variant: ModelVariant {
            name: "m".to_string(),
            tag: "7b".to_string(),
            full_ref: "m:7b".to_string(),
            weights_bytes: 10,
            total_bytes: 10,
            estimated_runtime_bytes: 12,
            runtime_margin_pct: 20,
            context_tokens: 8192,
            param_billions: None,
            quantization: None,
            is_instruct: true,
        },
        fit,
        diagnostics: ResolutionDiagnostics::default(),
    }
}

#[test]
fn what_fits_is_pulled_and_what_does_not_needs_consent() {
    let fits = outcome(FitResult::FitsRamOnly);
    let large = outcome(FitResult::DoesNotFit { need: 12, have: 1 });
    assert_eq!(after_resolution("m", &fits, true, false), NextStep::Pull { show: false });
    assert_eq!(after_resolution("m", &fits, false, false), NextStep::Pull { show: true });
    assert_eq!(after_resolution("m", &large, false, true), NextStep::Pull { show: true });
    assert_eq!(
        after_resolution("m", &large, false, false),
        NextStep::Confirm("m:7b does not fit the detected hardware. Pull anyway?".to_string())
    );
    assert_eq!(
        after_resolution("m", &large, true, true),
        NextStep::Refuse(ResolverError::Other(
            "no variant of 'm' fits the detected hardware".to_string()
        ))
    );
    assert!(after_confirmation(true).is_ok());
    assert_eq!(after_confirmation(false).unwrap_err().message(), "aborted by user");
}

#[test]
fn notes_are_exact() {
    assert_eq!(selected_model_note("a", "a", false), None);
    assert_eq!(selected_model_note("a", "b", true), None);
    assert_eq!(selected_model_note("a", "b", false).unwrap(), "Using selected model: b");
    assert_eq!(pull_note("m:7b", false).unwrap(), "Pulling m:7b...");
    assert_eq!(pull_note("m:7b", true), None);
    assert_eq!(
        no_macos_models_message("q\n"),
        "No macOS-optimized models found for 'q\u{fffd}'. (Looked for macOS-gated variants such as nvfp4 among the matches.)"
    );
    assert!(check_exact_model("m").is_ok());
    assert_eq!(
        check_exact_model(" \t").unwrap_err(),
        ResolverError::InvalidInput("model name cannot be empty".to_string())
    );
}

#[test]
fn split_note_is_for_shared_memory_only() {
    let mut hw = HardwareProfile {
        gpu_name: None,
        vram_total: 0,
        vram_free: 0,
        ram_total: 1,
        ram_available: 1,
        disk_free: 1,
        models_dir: "/tmp".to_string(),
        gpus: Vec::new(),
        selected_gpu_indices: Vec::new(),
        cuda_visible_devices: None,
        gpu_fit_policy: GpuFitPolicy::Best,
        unified_mem_total: 0,
    };
    assert_eq!(split_note(&hw, true), None);
    hw.unified_mem_total = 1;
    assert_eq!(split_note(&hw, false), None);
    assert!(split_note(&hw, true).unwrap().starts_with("Note: --split has no effect"));
}

#[test]
fn info_lists_models_or_warns() {
    assert_eq!(
        info_models(&LocalReading::Unreachable, "::1", 5).unwrap_err(),
        "ollama is not reachable at http://[::1]:5"
    );
    assert_eq!(
        info_models(&LocalReading::Failed(ResolverError::Json("eof".to_string())), "h", 5).unwrap_err(),
        "Warning: could not list local models: JSON parsing failed: eof"
    );
    assert_eq!(info_models(&LocalReading::Models(Vec::new()), "h", 5).unwrap().len(), 1);
}

#[test]
fn pull_events_are_shown_or_end_the_pull() {
    let mut event = PullEvent {
        status: Some("pulling".to_string()),
        digest: Some("sha256:0123456789abcdef".to_string()),
        completed: Some(512),
        total: Some(1023),
        error: None,
    };
    assert_eq!(pull_step("m", &event).unwrap(), "pulling 0123456789ab 50% (512 B / 1023 B)");
    assert_eq!(progress_text(&event, "half", "all"), "pulling 0123456789ab 50% (half / all)");
    event.total = Some(0);
    event.digest = Some("short".to_string());
    assert_eq!(pull_step("m", &event).unwrap(), "pulling short 0% (512 B / 0 B)");
    event.total = None;
    event.digest = None;
    event.status = None;
    assert_eq!(pull_step("m", &event).unwrap(), "working");
    event.error = Some("no\u{7}space".to_string());
    assert_eq!(
        pull_step("m", &event).unwrap_err(),
        ResolverError::PullFailed { model: "m".to_string(), detail: "no\u{fffd}space".to_string() }
    );
}

#[test]
fn controls_are_made_visible() {
    assert_eq!(terminal_line("a\u{1b}[31m\nb\u{9f}"), "a\u{fffd}[31m\u{fffd}b\u{fffd}");
    assert_eq!(terminal_text("a\r\nb"), "a\u{fffd}\nb");
    assert_eq!(terminal_line("plain ✓"), "plain ✓");
    assert_eq!(terminal_line(&terminal_line("a\tb")), terminal_line("a\tb"));
}

#[test]
fn workers_and_order_of_results() {
    assert_eq!(worker_count(8, 0), 0);
    assert_eq!(worker_count(0, 3), 1);
    assert_eq!(worker_count(8, 3), 3);
    assert_eq!(worker_count(2, 3), 2);
    assert_eq!(restore_order(vec![(2, "c"), (0, "a"), (1, "b")]), vec!["a", "b", "c"]);
}

#[test]
fn items_are_handed_out_once_and_map_as_in_series() {
    let items = ["a", "bb", "ccc"];
    let mut handout = Handout::new(items.len());
    let mut first: Vec<(usize, usize)> = Vec::new();
    let mut second: Vec<(usize, usize)> = Vec::new();
    while let Some(i) = handout.claim() {
        let done = (i, items[i].len());
        if i == 1 {
            first.push(done);
        } else {
            second.push(done);
        }
    }
    assert_eq!(handout.claim(), None);
    assert_eq!((first.len(), second.len()), (1, 2));
    first.extend(second);
    assert_eq!(restore_order(first), vec![1, 2, 3]);
    assert_eq!(Handout::new(0).claim(), None);
}

#[test]
fn search_page_links_name_models() {
    let html = "<a href=\"/library/qwen3\">x</a><a href=\"/library/qwen3:8b\">y</a>\
                <a href=\"/blog/z\"></a><a href=\"/library/glm-4\"></a><a href=\"/library/qwen3\">";
    assert_eq!(library_names(html), vec!["qwen3", "glm-4"]);
    assert!(library_names("").is_empty());
}

#[test]
fn tag_page_links_name_tags_and_sizes() {
    let html = "<a href=\"/library/m:latest\">m:latest</a><p>4.7GB • 128K context</p>\
                <a href=\"/library/other:7b\">o</a><span>9GB</span>\
                <a href=\"/library/m:7b\">7b</a><i>Text</i><a href=\"/library/m:latest\">1GB</a>";
    let tags: Vec<(String, Option<String>)> =
        model_tags("m", html).into_iter().map(|found| (found.tag, found.approx_size)).collect();
    assert_eq!(
        tags,
        vec![
            ("latest".to_string(), Some("4.7GB".to_string())),
            ("7b".to_string(), None)
        ]
    );
}

fn found(names: &[&str]) -> Vec<SearchResult> {
    names
        .iter()
        .map(|name| SearchResult {
            name: name.to_string(),
            description: String::new(),
            pulls: String::new(),
            tag_count: String::new(),
            updated: String::new(),
        })
        .collect()
}

fn selection(quiet: bool, interactive: bool) -> ModelSelectionOptions {
    ModelSelectionOptions::with_interactive(quiet, None, false, false, interactive).unwrap()
}

#[test]
fn flow_pulls_an_exact_match_that_fits() {
    let searching = Searching::begin("m?", selection(true, false), false).unwrap();
    assert_eq!(searching.query(), "m");
    let Ok(Choice::Resolve(resolving)) = searching.found(found(&["mm", "m"])) else {
        panic!("expected a choice");
    };
    assert_eq!((resolving.model(), resolving.note()), ("m", None));
    let Ok(Verdict::Pull(pulling)) = resolving.resolved(outcome(FitResult::FitsVram)) else {
        panic!("expected a pull");
    };
    assert_eq!((pulling.model(), pulling.quiet()), ("m:7b", true));
    assert!(pulling.unshown().is_none());
}

#[test]
fn flow_asks_for_the_model_and_for_consent() {
    let nonfit = FitResult::DoesNotFit { need: 2, have: 1 };
    let searching = Searching::begin("m?", selection(false, true), false).unwrap();
    let Ok(Choice::Ask(asking)) = searching.found(found(&["ma", "mb"])) else {
        panic!("expected a question");
    };
    assert_eq!((asking.query(), asking.candidates().len()), ("m", 2));
    let resolving = asking.answered(Ok(Some(1))).unwrap();
    assert_eq!(resolving.note().unwrap(), "Using selected model: mb");
    let Ok(Verdict::Confirm(confirming)) = resolving.resolved(outcome(nonfit)) else {
        panic!("expected a question");
    };
    assert_eq!(confirming.prompt(), "m:7b does not fit the detected hardware. Pull anyway?");
    assert_eq!(confirming.outcome().fit, nonfit);
    let pulling = confirming.confirmed(true).unwrap();
    assert_eq!((pulling.model(), pulling.quiet()), ("m:7b", false));
    assert!(pulling.unshown().is_none());
}

#[test]
fn flow_ends_where_consent_is_refused_or_cannot_be_had() {
    let nonfit = FitResult::InsufficientDisk { need: 2, have: 1 };
    let start = |quiet: bool, yes: bool| {
        let searching = Searching::begin("m?", selection(quiet, true), yes).unwrap();
        match searching.found(found(&["m"])) {
            Ok(Choice::Resolve(resolving)) => resolving,
            _ => panic!("expected a choice"),
        }
    };
    let Ok(Verdict::Confirm(confirming)) = start(false, false).resolved(outcome(nonfit)) else {
        panic!("expected a question");
    };
    assert_eq!(confirming.confirmed(false).err().unwrap().message(), "aborted by user");
    assert_eq!(
        start(true, true).resolved(outcome(nonfit)).err().unwrap().message(),
        "no variant of 'm' fits the detected hardware"
    );
    let Ok(Verdict::Pull(pulling)) = start(false, true).resolved(outcome(nonfit)) else {
        panic!("expected a pull");
    };
    assert!(pulling.unshown().is_some());
    assert!(Searching::begin("m", selection(false, true), false).is_err());
}
