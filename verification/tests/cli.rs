use clap::{Arg, ArgAction, ArgMatches, Command};

use ollama_model_resolver::cli::{
    parse_gpu_fit_policy, Cli, Commands, GivenCommand, GivenOptions,
};
use ollama_model_resolver::types::GpuFitPolicy;

fn flag(name: &'static str) -> Arg {
    Arg::new(name).long(name).action(ArgAction::SetTrue)
}

fn number(name: &'static str) -> Arg {
    Arg::new(name)
        .long(name)
        .value_parser(|text: &str| text.parse::<u64>().map_err(|err| err.to_string()))
}

fn definition() -> Command {
    Command::new("ollama-model-resolver")
        .subcommand_required(true)
        .arg(flag("split").global(true))
        .arg(number("margin").global(true))
        .arg(Arg::new("ollama-host").long("ollama-host").global(true))
        .arg(number("ollama-port").global(true))
        .arg(flag("allow-remote-ollama").global(true))
        .arg(number("max-manifest-lookups").global(true))
        .arg(number("pull-stall-timeout").global(true))
        .arg(Arg::new("gpu-fit-policy").long("gpu-fit-policy").global(true))
        .arg(number("context-tokens").global(true))
        .subcommand(
            Command::new("search")
                .arg(Arg::new("query").required(true))
                .arg(number("limit"))
                .arg(flag("fit"))
                .arg(flag("all"))
                .arg(flag("quick").aliases(["fast", "no-fit"]))
                .arg(flag("wide"))
                .arg(flag("macos")),
        )
        .subcommand(
            Command::new("resolve")
                .arg(Arg::new("model").required(true))
                .arg(flag("quiet"))
                .arg(number("select"))
                .arg(flag("first"))
                .arg(flag("fail-on-ambiguous"))
                .arg(flag("yes")),
        )
        .subcommand(Command::new("info"))
}

fn given_number(matches: &ArgMatches, name: &str) -> Option<u64> {
    matches.get_one::<u64>(name).copied()
}

fn given_text(matches: &ArgMatches, name: &str) -> Option<String> {
    matches.get_one::<String>(name).cloned()
}

fn given_command(matches: &ArgMatches) -> GivenCommand {
    match matches.subcommand() {
        Some(("search", search)) => GivenCommand::Search {
            query: given_text(search, "query").unwrap(),
            limit: given_number(search, "limit").map(|n| n as usize),
            fit: search.get_flag("fit"),
            no_fit: search.get_flag("quick"),
            all: search.get_flag("all"),
            wide: search.get_flag("wide"),
            macos: search.get_flag("macos"),
        },
        Some(("resolve", resolve)) => GivenCommand::Resolve {
            model: given_text(resolve, "model").unwrap(),
            quiet: resolve.get_flag("quiet"),
            select: given_number(resolve, "select").map(|n| n as usize),
            first: resolve.get_flag("first"),
            fail_on_ambiguous: resolve.get_flag("fail-on-ambiguous"),
            yes: resolve.get_flag("yes"),
        },
        _ => GivenCommand::Info,
    }
}

fn try_parse_from(args: &[&str]) -> Result<Cli, String> {
    let matches = definition().try_get_matches_from(args).map_err(|err| err.to_string())?;
    let given = GivenOptions {
        allow_split: matches.get_flag("split"),
        margin: given_number(&matches, "margin").map(|n| n as u32),
        ollama_host: given_text(&matches, "ollama-host"),
        ollama_port: given_number(&matches, "ollama-port").map(|n| n as u16),
        allow_remote_ollama: matches.get_flag("allow-remote-ollama"),
        max_manifest_lookups: given_number(&matches, "max-manifest-lookups").map(|n| n as usize),
        pull_stall_timeout: given_number(&matches, "pull-stall-timeout"),
        gpu_fit_policy: given_text(&matches, "gpu-fit-policy"),
        context_tokens: given_number(&matches, "context-tokens").map(|n| n as u32),
        command: given_command(&matches),
    };
    Cli::from_given(given).map_err(|err| err.message())
}

#[test]
fn parses_search_fit_option() {
    let cli = try_parse_from(&[
        "ollama-model-resolver",
        "search",
        "qwen",
        "--fit",
    ])
    .unwrap();

    match cli.command {
        Commands::Search { fit, no_fit, .. } => {
            assert!(fit);
            assert!(!no_fit);
        }
        _ => panic!("expected search command"),
    }
}

#[test]
fn search_defaults_to_library_only() {
    let cli = try_parse_from(&[
        "ollama-model-resolver",
        "search",
        "qwen",
    ])
    .unwrap();

    match cli.command {
        Commands::Search { fit, no_fit, .. } => {
            assert!(!fit);
            assert!(!no_fit);
        }
        _ => panic!("expected search command"),
    }
}

#[test]
fn parses_search_no_fit_option() {
    let cli = try_parse_from(&[
        "ollama-model-resolver",
        "search",
        "qwen",
        "--no-fit",
    ])
    .unwrap();

    match cli.command {
        Commands::Search { fit, no_fit, .. } => {
            assert!(!fit);
            assert!(no_fit);
        }
        _ => panic!("expected search command"),
    }
}

#[test]
fn parses_search_fast_alias() {
    let cli = try_parse_from(&[
        "ollama-model-resolver",
        "search",
        "qwen",
        "--fast",
    ])
    .unwrap();

    match cli.command {
        Commands::Search { fit, no_fit, .. } => {
            assert!(!fit);
            assert!(no_fit);
        }
        _ => panic!("expected search command"),
    }
}

#[test]
fn rejects_conflicting_search_fit_modes() {
    assert!(try_parse_from(&[
        "ollama-model-resolver",
        "search",
        "qwen",
        "--fit",
        "--no-fit",
    ])
    .is_err());
}

#[test]
fn parses_all_flag() {
    let cli = try_parse_from(&[
        "ollama-model-resolver",
        "search",
        "qwen",
        "--fit",
        "--all",
    ])
    .unwrap();

    match cli.command {
        Commands::Search { all, fit, no_fit, .. } => {
            assert!(all);
            assert!(fit);
            assert!(!no_fit);
        }
        _ => panic!("expected search command"),
    }
}

#[test]
fn all_conflicts_with_no_fit() {
    assert!(try_parse_from(&[
        "ollama-model-resolver",
        "search",
        "qwen",
        "--all",
        "--no-fit",
    ])
    .is_err());
}

#[test]
fn all_defaults_false() {
    let cli = try_parse_from(&[
        "ollama-model-resolver",
        "search",
        "qwen",
        "--fit",
    ])
    .unwrap();

    match cli.command {
        Commands::Search { all, .. } => {
            assert!(!all);
        }
        _ => panic!("expected search command"),
    }
}

#[test]
fn parses_wide_flag() {
    let cli = try_parse_from(&[
        "ollama-model-resolver",
        "search",
        "qwen",
        "--wide",
    ])
    .unwrap();

    match cli.command {
        Commands::Search { wide, .. } => {
            assert!(wide);
        }
        _ => panic!("expected search command"),
    }
}

#[test]
fn parses_allow_remote_ollama_global_option() {
    let cli = try_parse_from(&[
        "ollama-model-resolver",
        "--ollama-host",
        "http://192.0.2.10:11434",
        "--allow-remote-ollama",
        "info",
    ])
    .unwrap();

    assert!(cli.allow_remote_ollama);
    assert_eq!(cli.ollama_host, "http://192.0.2.10:11434");
}

#[test]
fn parses_pull_stall_timeout_global_option() {
    let cli = try_parse_from(&[
        "ollama-model-resolver",
        "--pull-stall-timeout",
        "900",
        "resolve",
        "qwen?",
    ])
    .unwrap();

    assert_eq!(cli.pull_stall_timeout, 900);
}

#[test]
fn parses_gpu_fit_policy_global_option() {
    let cli = try_parse_from(&[
        "ollama-model-resolver",
        "--gpu-fit-policy",
        "visible-sum",
        "resolve",
        "qwen?",
    ])
    .unwrap();

    assert_eq!(cli.gpu_fit_policy, GpuFitPolicy::VisibleSum);
}

#[test]
fn parses_context_tokens_global_option() {
    let cli = try_parse_from(&[
        "ollama-model-resolver",
        "--context-tokens",
        "32768",
        "resolve",
        "qwen?",
    ])
    .unwrap();

    assert_eq!(cli.context_tokens, 32_768);
}

#[test]
fn parses_resolve_select_option() {
    let cli = try_parse_from(&[
        "ollama-model-resolver",
        "resolve",
        "qwen?",
        "--select",
        "2",
    ])
    .unwrap();

    match cli.command {
        Commands::Resolve { select, .. } => assert_eq!(select, Some(2)),
        _ => panic!("expected resolve command"),
    }
}

#[test]
fn parses_resolve_first_option() {
    let cli = try_parse_from(&[
        "ollama-model-resolver",
        "resolve",
        "qwen?",
        "--first",
    ])
    .unwrap();

    match cli.command {
        Commands::Resolve { first, .. } => assert!(first),
        _ => panic!("expected resolve command"),
    }
}

#[test]
fn parses_resolve_fail_on_ambiguous_option() {
    let cli = try_parse_from(&[
        "ollama-model-resolver",
        "resolve",
        "qwen?",
        "--fail-on-ambiguous",
    ])
    .unwrap();

    match cli.command {
        Commands::Resolve { fail_on_ambiguous, .. } => assert!(fail_on_ambiguous),
        _ => panic!("expected resolve command"),
    }
}

#[test]
fn defaults_fill_what_was_not_given() {
    let cli = try_parse_from(&["ollama-model-resolver", "search", "qwen"]).unwrap();
    assert_eq!(
        cli,
        Cli {
            allow_split: false,
            margin: 20,
            ollama_host: "127.0.0.1".to_string(),
            ollama_port: 11434,
            allow_remote_ollama: false,
            max_manifest_lookups: None,
            pull_stall_timeout: 300,
            gpu_fit_policy: GpuFitPolicy::Best,
            context_tokens: 8192,
            command: Commands::Search {
                query: "qwen".to_string(),
                limit: 20,
                fit: false,
                no_fit: false,
                all: false,
                wide: false,
                macos: false,
            },
        }
    );
}

#[test]
fn given_options_are_kept() {
    let cli = try_parse_from(&[
        "ollama-model-resolver",
        "--split",
        "--margin",
        "30",
        "--ollama-port",
        "80",
        "--max-manifest-lookups",
        "7",
        "search",
        "qwen",
        "--limit",
        "3",
        "--macos",
        "--fit",
    ])
    .unwrap();
    assert!(cli.allow_split);
    assert_eq!((cli.margin, cli.ollama_port, cli.max_manifest_lookups), (30, 80, Some(7)));
    assert!(matches!(cli.command, Commands::Search { limit: 3, macos: true, fit: true, .. }));
}

#[test]
fn contradictions_are_named() {
    let fault = |args: &[&str]| try_parse_from(args).unwrap_err();
    assert_eq!(
        fault(&["ollama-model-resolver", "search", "q", "--macos", "--all"]),
        "invalid input: the argument '--macos' cannot be used with '--all'"
    );
    assert_eq!(
        fault(&["ollama-model-resolver", "search", "q", "--macos", "--quick"]),
        "invalid input: the argument '--macos' cannot be used with '--no-fit'"
    );
    assert_eq!(
        fault(&["ollama-model-resolver", "--gpu-fit-policy", "worst", "info"]),
        "invalid input: invalid value 'worst' for '--gpu-fit-policy'"
    );
}

#[test]
fn policy_names_read_back() {
    for policy in [GpuFitPolicy::Best, GpuFitPolicy::VisibleSum, GpuFitPolicy::AllSum] {
        assert_eq!(parse_gpu_fit_policy(&policy.label()), Some(policy));
    }
    assert_eq!(parse_gpu_fit_policy("Best"), None);
}
