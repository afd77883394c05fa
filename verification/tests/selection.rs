use ollama_model_resolver::error::ResolverError;
use ollama_model_resolver::selection::{
    accept_answer, candidate_list, choose_model_name_with_picker, decide_model_name,
    format_model_choice, ModelSelectionOptions,
};
use ollama_model_resolver::types::SearchResult;

fn choose_model_name(
    query: &str,
    results: &[SearchResult],
    selection: ModelSelectionOptions,
) -> Result<String, ResolverError> {
    choose_model_name_with_picker(query, results, selection, |_| {
        panic!("the user should not be asked")
    })
}

fn search_result(name: &str) -> SearchResult {
    SearchResult {
        name: name.into(),
        description: format!("description for {name}"),
        pulls: "1M Pulls".into(),
        tag_count: "10 Tags".into(),
        updated: String::new(),
    }
}

fn selection(
    quiet: bool,
    select: Option<usize>,
    first: bool,
    fail_on_ambiguous: bool,
    interactive: bool,
) -> ModelSelectionOptions {
    ModelSelectionOptions::with_interactive(
        quiet,
        select,
        first,
        fail_on_ambiguous,
        interactive,
    )
    .unwrap()
}

#[test]
fn quiet_mode_requires_exact_search_match() {
    let results = vec![search_result("qwen2.5-coder")];
    let quiet = selection(true, None, false, false, false);
    assert!(choose_model_name("qwen", &results, quiet).is_err());
    assert_eq!(
        choose_model_name("qwen2.5-coder", &results, quiet).unwrap(),
        "qwen2.5-coder"
    );
}

#[test]
fn interactive_mode_uses_picker_for_single_non_exact_match() {
    let results = vec![search_result("qwen2.5-coder")];
    let options = selection(false, None, false, false, true);

    let chosen = choose_model_name_with_picker("qwen", &results, options, |candidates| {
        assert_eq!(candidates.len(), 1);
        Ok(Some(0))
    })
    .unwrap();

    assert_eq!(chosen, "qwen2.5-coder");
}

#[test]
fn interactive_mode_uses_picker_for_multiple_non_exact_matches() {
    let results = vec![
        search_result("qwen3"),
        search_result("qwen2.5-coder"),
        search_result("qwen2.5"),
    ];
    let options = selection(false, None, false, false, true);

    let chosen = choose_model_name_with_picker("qwen", &results, options, |candidates| {
        assert_eq!(candidates.len(), 3);
        Ok(Some(1))
    })
    .unwrap();

    assert_eq!(chosen, "qwen2.5-coder");
}

#[test]
fn interactive_mode_limits_picker_to_top_eight_matches() {
    let results = (0..12)
        .map(|idx| search_result(&format!("qwen-candidate-{idx}")))
        .collect::<Vec<_>>();
    let options = selection(false, None, false, false, true);

    let chosen = choose_model_name_with_picker("qwen", &results, options, |candidates| {
        assert_eq!(candidates.len(), 8);
        Ok(Some(7))
    })
    .unwrap();

    assert_eq!(chosen, "qwen-candidate-7");
}

#[test]
fn interactive_mode_reports_user_cancel() {
    let results = vec![search_result("qwen3"), search_result("qwen2.5-coder")];
    let options = selection(false, None, false, false, true);

    let err = choose_model_name_with_picker("qwen", &results, options, |_| Ok(None))
        .unwrap_err();
    assert!(err.message().contains("aborted by user"));
}

#[test]
fn select_option_uses_one_based_candidate_number() {
    let results = vec![
        search_result("qwen3"),
        search_result("qwen2.5-coder"),
        search_result("qwen2.5"),
    ];
    let options = selection(false, Some(2), false, false, false);

    let chosen = choose_model_name_with_picker("qwen", &results, options, |_| {
        panic!("picker should not run when --select is present")
    })
    .unwrap();

    assert_eq!(chosen, "qwen2.5-coder");
}

#[test]
fn select_option_rejects_out_of_range_candidate_number() {
    let results = vec![search_result("qwen3")];
    let options = selection(false, Some(2), false, false, false);

    let err = choose_model_name_with_picker("qwen", &results, options, |_| {
        panic!("picker should not run when --select is present")
    })
    .unwrap_err();

    assert!(err.message().contains("--select 2 is outside"));
}

#[test]
fn first_option_selects_first_candidate_without_prompting() {
    let results = vec![search_result("qwen3"), search_result("qwen2.5-coder")];
    let options = selection(false, None, true, false, false);

    let chosen = choose_model_name_with_picker("qwen", &results, options, |_| {
        panic!("picker should not run when --first is present")
    })
    .unwrap();

    assert_eq!(chosen, "qwen3");
}

#[test]
fn fail_on_ambiguous_returns_ambiguous_error_without_prompting() {
    let results = vec![search_result("qwen3"), search_result("qwen2.5-coder")];
    let options = selection(false, None, false, true, false);

    let err = choose_model_name_with_picker("qwen", &results, options, |_| {
        panic!("picker should not run when --fail-on-ambiguous is present")
    })
    .unwrap_err();

    assert!(err.message().contains("did not produce an exact match"));
}

#[test]
fn non_interactive_mode_reports_remediation_without_prompting() {
    let results = vec![search_result("qwen3"), search_result("qwen2.5-coder")];
    let options = selection(false, None, false, false, false);

    let err = choose_model_name_with_picker("qwen", &results, options, |_| {
        panic!("picker should not run in non-interactive mode")
    })
    .unwrap_err();
    let message = err.message();

    assert!(message.contains("No exact model match for qwen"));
    assert!(message.contains("--select <N>"));
    assert!(message.contains("--first"));
    assert!(message.contains("qwen3"));
}

#[test]
fn rejects_zero_select_value() {
    let err = ModelSelectionOptions::with_interactive(false, Some(0), false, false, false)
        .unwrap_err();
    assert!(err.message().contains("--select must be"));
}

#[test]
fn rejects_conflicting_selection_directives() {
    let err = ModelSelectionOptions::with_interactive(false, Some(1), true, false, false)
        .unwrap_err();
    assert!(err.message().contains("use only one"));
}

#[test]
fn rejects_quiet_with_select_or_first() {
    let select_err = ModelSelectionOptions::with_interactive(true, Some(1), false, false, false)
        .unwrap_err();
    assert!(select_err.message().contains("--quiet cannot be combined"));

    let first_err = ModelSelectionOptions::with_interactive(true, None, true, false, false)
        .unwrap_err();
    assert!(first_err.message().contains("--quiet cannot be combined"));
}

#[test]
fn model_choice_includes_metadata_without_requiring_it() {
    let formatted = format_model_choice(&search_result("qwen3"));
    assert!(formatted.contains("qwen3"));
    assert!(formatted.contains("1M Pulls"));
    assert!(formatted.contains("10 Tags"));
}

#[test]
fn exact_match_wins_over_every_option() {
    let results = vec![search_result("qwen3"), search_result("qwen")];
    let options = selection(false, Some(1), false, false, false);
    assert_eq!(choose_model_name("qwen", &results, options).unwrap(), "qwen");
    let options = selection(false, None, false, true, false);
    assert_eq!(choose_model_name("qwen", &results, options).unwrap(), "qwen");
}

#[test]
fn nothing_found_is_reported_as_such() {
    let options = selection(false, None, true, false, true);
    let err = choose_model_name("qwen", &[], options).unwrap_err();
    assert_eq!(err, ResolverError::NoSearchResults { query: "qwen".into() });
    assert_eq!(err.message(), "no models found matching 'qwen'");
}

#[test]
fn user_is_asked_only_when_nothing_else_decides() {
    let results = vec![search_result("qwen3")];
    assert!(decide_model_name("qwen", &results, selection(false, None, false, false, true)).is_none());
    assert!(decide_model_name("qwen", &results, selection(false, None, false, false, false)).is_some());
    assert!(decide_model_name("qwen", &results, selection(true, None, false, false, true)).is_some());
}

#[test]
fn answers_outside_the_list_are_refused() {
    let results = vec![search_result("qwen3")];
    let err = accept_answer(&results, Ok(Some(1))).unwrap_err();
    assert_eq!(
        err.message(),
        "invalid input: selected model index 1 is outside the candidate list"
    );
    let err = accept_answer(&results, Err(ResolverError::Other("no terminal".into()))).unwrap_err();
    assert_eq!(err.message(), "no terminal");
    assert_eq!(accept_answer(&results, Ok(Some(0))).unwrap(), "qwen3");
}

#[test]
fn model_choice_is_one_exact_line() {
    assert_eq!(
        format_model_choice(&search_result("qwen3")),
        "qwen3 (1M Pulls, 10 Tags) - description for qwen3"
    );
    let bare = SearchResult {
        name: "a\u{1b}b".into(),
        description: String::new(),
        pulls: String::new(),
        tag_count: "2 Tags".into(),
        updated: String::new(),
    };
    assert_eq!(format_model_choice(&bare), "a\u{fffd}b (2 Tags)");
}

#[test]
fn candidate_list_names_at_most_eight() {
    let results: Vec<SearchResult> = (0..9).map(|i| search_result(&format!("m{i}"))).collect();
    assert_eq!(candidate_list(&results), "m0, m1, m2, m3, m4, m5, m6, m7");
}

#[test]
fn non_interactive_message_is_exact() {
    let results = vec![search_result("qwen3")];
    let err = choose_model_name("qwen", &results, selection(false, None, false, false, false))
        .unwrap_err();
    assert_eq!(
        err.message(),
        "No exact model match for qwen. Re-run with an exact model name, use --quiet, pass --select <N>, pass --first, or pass --fail-on-ambiguous.\nTop candidates:\n  1. qwen3 (1M Pulls, 10 Tags) - description for qwen3"
    );
}

#[test]
fn both_terminals_are_needed_to_ask() {
    let options = ModelSelectionOptions::new(false, None, false, false, true, true).unwrap();
    assert!(options.interactive);
    let options = ModelSelectionOptions::new(false, None, false, false, true, false).unwrap();
    assert!(!options.interactive);
    let options = ModelSelectionOptions::new(false, None, false, false, false, true).unwrap();
    assert!(!options.interactive);
}
