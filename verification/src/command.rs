//! From a request to what is done: the checks before anything happens, and the
//! decisions between one step and the next.

use vstd::prelude::*;
use vstd::slice::slice_subrange;

use crate::cli::{Cli, Commands};
use crate::display::{self, Block};
use crate::endpoint;
use crate::error::{ErrorView, ResolverError};
use crate::fit::ResolveOpts;
use crate::resolver::{ResolutionOutcome, OutcomeView};
use crate::sanitize;
use crate::selection::{self, ModelSelectionOptions};
use crate::text;
use crate::types::{FitResult, GpuFitPolicy, HardwareProfile};

verus! {

/// What a request comes to.
#[derive(Debug, Clone)]
pub enum Task {
    /// List matches with the sizes of their tag pages.
    Browse { query: String, limit: usize, wide: bool },
    /// List matches with a verdict on each.
    Search {
        query: String,
        limit: usize,
        wide: bool,
        macos: bool,
        gpu_fit_policy: GpuFitPolicy,
        opts: ResolveOpts,
    },
    /// Choose the variant of a model and pull it.
    Resolve {
        model: String,
        selection: ModelSelectionOptions,
        yes: bool,
        gpu_fit_policy: GpuFitPolicy,
        opts: ResolveOpts,
        host: String,
        port: u16,
        pull_stall_timeout: u64,
    },
    /// Pull a model as it is named.
    PullExact { model: String, quiet: bool, host: String, port: u16, pull_stall_timeout: u64 },
    /// Show the machine and its models.
    Info { gpu_fit_policy: GpuFitPolicy, host: String, port: u16 },
}

/// How many manifests a search looks up for one model where nothing is said.
pub const SEARCH_MANIFEST_LOOKUPS: usize = 5;

/// What is wrong with the numbers of a request, if anything.
pub open spec fn number_fault(cli: Cli) -> Option<Seq<char>> {
    if cli.margin > 500 {
        Some("--margin must be between 0 and 500"@)
    } else if cli.max_manifest_lookups == Some(0usize) {
        Some("--max-manifest-lookups must be greater than 0"@)
    } else if cli.pull_stall_timeout == 0 {
        Some("--pull-stall-timeout must be greater than 0"@)
    } else if cli.context_tokens == 0 {
        Some("--context-tokens must be greater than 0"@)
    } else {
        None
    }
}

/// What is wrong with a request, if anything. A command that talks to Ollama is
/// held to the rule on hosts before its other options are looked at.
pub open spec fn run_fault(cli: Cli) -> Option<Seq<char>> {
    match number_fault(cli) {
        Some(fault) => Some(fault),
        None => match cli.command {
            Commands::Search { .. } => None,
            Commands::Resolve { quiet, select, first, fail_on_ambiguous, .. } => {
                match endpoint::host_fault(cli.ollama_host@, cli.allow_remote_ollama) {
                    Some(fault) => Some(fault),
                    None => selection::option_fault(quiet, select, first, fail_on_ambiguous),
                }
            },
            Commands::Info => endpoint::host_fault(cli.ollama_host@, cli.allow_remote_ollama),
        },
    }
}

pub open spec fn asks_for_resolution(model: Seq<char>) -> bool {
    model.len() > 0 && model.last() == '?'
}

pub open spec fn resolve_opts(cli: Cli) -> ResolveOpts {
    ResolveOpts {
        allow_split: cli.allow_split,
        margin_pct: cli.margin,
        context_tokens: cli.context_tokens,
        max_manifest_lookups: cli.max_manifest_lookups,
        fit_filter: false,
        all: false,
    }
}

/// The options of a search: it looks up few manifests for each model unless told
/// otherwise.
pub open spec fn search_opts(cli: Cli, fit: bool, all: bool) -> ResolveOpts {
    ResolveOpts {
        max_manifest_lookups: match cli.max_manifest_lookups {
            Some(n) => Some(n),
            None => Some(SEARCH_MANIFEST_LOOKUPS),
        },
        fit_filter: fit,
        all,
        ..resolve_opts(cli)
    }
}

/// What a faultless request comes to.
pub open spec fn task_of(cli: Cli, interactive: bool) -> Task {
    match cli.command {
        Commands::Search { query, limit, fit, no_fit, all, wide, macos } => if no_fit {
            Task::Browse { query, limit, wide }
        } else {
            Task::Search {
                query,
                limit,
                wide,
                macos,
                gpu_fit_policy: cli.gpu_fit_policy,
                opts: search_opts(cli, fit, all),
            }
        },
        Commands::Resolve { model, quiet, select, first, fail_on_ambiguous, yes } =>
            if asks_for_resolution(model@) {
                Task::Resolve {
                    model,
                    selection: ModelSelectionOptions {
                        quiet,
                        select,
                        first,
                        fail_on_ambiguous,
                        interactive,
                    },
                    yes,
                    gpu_fit_policy: cli.gpu_fit_policy,
                    opts: resolve_opts(cli),
                    host: cli.ollama_host,
                    port: cli.ollama_port,
                    pull_stall_timeout: cli.pull_stall_timeout,
                }
            } else {
                Task::PullExact {
                    model,
                    quiet,
                    host: cli.ollama_host,
                    port: cli.ollama_port,
                    pull_stall_timeout: cli.pull_stall_timeout,
                }
            },
        Commands::Info => Task::Info {
            gpu_fit_policy: cli.gpu_fit_policy,
            host: cli.ollama_host,
            port: cli.ollama_port,
        },
    }
}

fn check_numbers(cli: &Cli) -> (r: Result<(), ResolverError>)
    ensures
        match number_fault(*cli) {
            Some(fault) => r matches Err(e) && e@ == ErrorView::InvalidInput(fault),
            None => r is Ok,
        },
{
    if cli.margin > 500 {
        return Err(
            ResolverError::InvalidInput("--margin must be between 0 and 500".to_string()),
        );
    }
    if let Some(0) = cli.max_manifest_lookups {
        return Err(
            ResolverError::InvalidInput(
                "--max-manifest-lookups must be greater than 0".to_string(),
            ),
        );
    }
    if cli.pull_stall_timeout == 0 {
        return Err(
            ResolverError::InvalidInput("--pull-stall-timeout must be greater than 0".to_string()),
        );
    }
    if cli.context_tokens == 0 {
        return Err(
            ResolverError::InvalidInput("--context-tokens must be greater than 0".to_string()),
        );
    }
    Ok(())
}

fn ends_with_question_mark(model: &str) -> (r: bool)
    ensures
        r == asks_for_resolution(model@),
{
    let chars = text::chars_of(model);
    chars.len() > 0 && chars[chars.len() - 1] == '?'
}

/// Checks a request and says what is to be done. The user can be asked if both
/// the input and the error output are terminals.
pub fn run(cli: Cli, stdin_is_terminal: bool, stderr_is_terminal: bool) -> (r: Result<
    Task,
    ResolverError,
>)
    ensures
        match run_fault(cli) {
            Some(fault) => r matches Err(e) && e@ == ErrorView::InvalidInput(fault),
            None => r == Ok::<_, ResolverError>(
                task_of(cli, stdin_is_terminal && stderr_is_terminal),
            ),
        },
{
    if let Err(e) = check_numbers(&cli) {
        return Err(e);
    }
    let opts = ResolveOpts {
        allow_split: cli.allow_split,
        margin_pct: cli.margin,
        context_tokens: cli.context_tokens,
        max_manifest_lookups: cli.max_manifest_lookups,
        fit_filter: false,
        all: false,
    };
    match cli.command {
        Commands::Search { query, limit, fit, no_fit, all, wide, macos } => {
            if no_fit {
                return Ok(Task::Browse { query, limit, wide });
            }
            let max_manifest_lookups = match cli.max_manifest_lookups {
                Some(n) => Some(n),
                None => Some(SEARCH_MANIFEST_LOOKUPS),
            };
            Ok(
                Task::Search {
                    query,
                    limit,
                    wide,
                    macos,
                    gpu_fit_policy: cli.gpu_fit_policy,
                    opts: ResolveOpts { max_manifest_lookups, fit_filter: fit, all, ..opts },
                },
            )
        },
        Commands::Resolve { model, quiet, select, first, fail_on_ambiguous, yes } => {
            if let Err(e) = endpoint::validate_ollama_host(
                cli.ollama_host.as_str(),
                cli.allow_remote_ollama,
            ) {
                return Err(e);
            }
            let selection = match ModelSelectionOptions::new(
                quiet,
                select,
                first,
                fail_on_ambiguous,
                stdin_is_terminal,
                stderr_is_terminal,
            ) {
                Ok(selection) => selection,
                Err(e) => {
                    return Err(e);
                },
            };
            if ends_with_question_mark(model.as_str()) {
                Ok(
                    Task::Resolve {
                        model,
                        selection,
                        yes,
                        gpu_fit_policy: cli.gpu_fit_policy,
                        opts,
                        host: cli.ollama_host,
                        port: cli.ollama_port,
                        pull_stall_timeout: cli.pull_stall_timeout,
                    },
                )
            } else {
                Ok(
                    Task::PullExact {
                        model,
                        quiet,
                        host: cli.ollama_host,
                        port: cli.ollama_port,
                        pull_stall_timeout: cli.pull_stall_timeout,
                    },
                )
            }
        },
        Commands::Info => {
            if let Err(e) = endpoint::validate_ollama_host(
                cli.ollama_host.as_str(),
                cli.allow_remote_ollama,
            ) {
                return Err(e);
            }
            Ok(
                Task::Info {
                    gpu_fit_policy: cli.gpu_fit_policy,
                    host: cli.ollama_host,
                    port: cli.ollama_port,
                },
            )
        },
    }
}

/// A note where a split was allowed but memory is shared, so that it changes
/// nothing.
pub fn split_note(hw: &HardwareProfile, allow_split: bool) -> (r: Option<String>)
    ensures
        text::opt_text(r) == (if allow_split && hw.unified_mem_total > 0 {
            Some(
                "Note: --split has no effect on Apple Silicon unified memory; VRAM and system RAM are a single pool."@,
            )
        } else {
            None
        }),
{
    if allow_split && hw.unified_mem_total > 0 {
        Some(
            "Note: --split has no effect on Apple Silicon unified memory; VRAM and system RAM are a single pool.".to_string(),
        )
    } else {
        None
    }
}

/// What a search for macOS variants says where there is none.
pub fn no_macos_models_message(query: &str) -> (r: String)
    ensures
        r@ == "No macOS-optimized models found for '"@ + sanitize::line(query@)
            + "'. (Looked for macOS-gated variants such as nvfp4 among the matches.)"@,
{
    "No macOS-optimized models found for '".to_string().concat(
        sanitize::terminal_line(query).as_str(),
    ).concat("'. (Looked for macOS-gated variants such as nvfp4 among the matches.)")
}

// ---- resolving a model -----------------------------------------------------

/// The model that is asked for: the name before the question mark.
pub open spec fn target_of(model: Seq<char>) -> Result<Seq<char>, ErrorView> {
    if !asks_for_resolution(model) {
        Err(ErrorView::InvalidInput("resolve input must end with '?'"@))
    } else if model.len() == 1 {
        Err(ErrorView::InvalidInput("model name cannot be empty"@))
    } else {
        Ok(model.drop_last())
    }
}

/// The model that is asked for.
pub fn resolve_target(model: &str) -> (r: Result<String, ResolverError>)
    ensures
        selection::name_view(r) == target_of(model@),
{
    let chars = text::chars_of(model);
    if !(chars.len() > 0 && chars[chars.len() - 1] == '?') {
        return Err(ResolverError::InvalidInput("resolve input must end with '?'".to_string()));
    }
    if chars.len() == 1 {
        return Err(ResolverError::InvalidInput("model name cannot be empty".to_string()));
    }
    let name = slice_subrange(chars.as_slice(), 0, chars.len() - 1);
    assert(name@ =~= model@.drop_last());
    Ok(text::string_of(name))
}

/// A note where another model than the named one is used.
pub fn selected_model_note(model_name: &str, resolved_name: &str, quiet: bool) -> (r: Option<String>)
    ensures
        text::opt_text(r) == (if !quiet && resolved_name@ != model_name@ {
            Some("Using selected model: "@ + sanitize::line(resolved_name@))
        } else {
            None
        }),
{
    if !quiet && !text::same_text(resolved_name, model_name) {
        Some(
            "Using selected model: ".to_string().concat(
                sanitize::terminal_line(resolved_name).as_str(),
            ),
        )
    } else {
        None
    }
}

/// What follows a resolution.
#[derive(Debug, Clone, PartialEq, Eq)]
pub enum NextStep {
    /// Give up with an error.
    Refuse(ResolverError),
    /// Show the result and ask the user.
    Confirm(String),
    /// Pull the variant; show the result before if so asked.
    Pull { show: bool },
}

pub enum NextStepView {
    Refuse(ErrorView),
    Confirm(Seq<char>),
    Pull { show: bool },
}

impl View for NextStep {
    type V = NextStepView;

    open spec fn view(&self) -> NextStepView {
        match self {
            NextStep::Refuse(e) => NextStepView::Refuse(e@),
            NextStep::Confirm(prompt) => NextStepView::Confirm(prompt@),
            NextStep::Pull { show } => NextStepView::Pull { show: *show },
        }
    }
}

/// A variant that fits is pulled. One that does not is refused in quiet mode;
/// else it is shown, and pulled if the user says so beforehand or when asked.
pub open spec fn next_step(
    name: Seq<char>,
    outcome: OutcomeView,
    quiet: bool,
    yes: bool,
) -> NextStepView {
    if outcome.fit.is_fit() {
        NextStepView::Pull { show: !quiet }
    } else if quiet {
        NextStepView::Refuse(
            ErrorView::Other("no variant of '"@ + name + "' fits the detected hardware"@),
        )
    } else if yes {
        NextStepView::Pull { show: true }
    } else {
        NextStepView::Confirm(
            sanitize::line(outcome.variant.full_ref)
                + " does not fit the detected hardware. Pull anyway?"@,
        )
    }
}

/// Decides what follows a resolution.
pub fn after_resolution(
    resolved_name: &str,
    outcome: &ResolutionOutcome,
    quiet: bool,
    yes: bool,
) -> (r: NextStep)
    ensures
        r@ == next_step(resolved_name@, outcome@, quiet, yes),
{
    if outcome.fit.fits() {
        return NextStep::Pull { show: !quiet };
    }
    if quiet {
        return NextStep::Refuse(
            ResolverError::Other(
                "no variant of '".to_string().concat(resolved_name).concat(
                    "' fits the detected hardware",
                ),
            ),
        );
    }
    if yes {
        return NextStep::Pull { show: true };
    }
    NextStep::Confirm(
        sanitize::terminal_line(outcome.variant.full_ref.as_str()).concat(
            " does not fit the detected hardware. Pull anyway?",
        ),
    )
}

/// What follows from the user's answer.
pub fn after_confirmation(proceed: bool) -> (r: Result<(), ResolverError>)
    ensures
        proceed ==> r is Ok,
        !proceed ==> (r matches Err(e) && e@ == ErrorView::Other("aborted by user"@)),
{
    if proceed {
        Ok(())
    } else {
        Err(ResolverError::Other("aborted by user".to_string()))
    }
}

// ---- pulling ---------------------------------------------------------------

/// Checks the name of a model that is to be pulled as it is.
pub fn check_exact_model(model: &str) -> (r: Result<(), ResolverError>)
    ensures
        text::trim(model@).len() > 0 ==> r is Ok,
        text::trim(model@).len() == 0 ==> (r matches Err(e) && e@ == ErrorView::InvalidInput(
            "model name cannot be empty"@,
        )),
{
    if text::trimmed(text::chars_of(model).as_slice()).len() == 0 {
        Err(ResolverError::InvalidInput("model name cannot be empty".to_string()))
    } else {
        Ok(())
    }
}

/// What is said before a pull.
pub fn pull_note(model: &str, quiet: bool) -> (r: Option<String>)
    ensures
        text::opt_text(r) == (if quiet {
            None
        } else {
            Some("Pulling "@ + sanitize::line(model@) + "..."@)
        }),
{
    if quiet {
        None
    } else {
        Some(
            "Pulling ".to_string().concat(sanitize::terminal_line(model).as_str()).concat("..."),
        )
    }
}

// ---- the summary of machine and models -------------------------------------

/// What Ollama said of its models.
#[derive(Debug, Clone, PartialEq, Eq)]
pub enum LocalReading {
    Unreachable,
    Failed(ResolverError),
    /// Names and sizes.
    Models(Vec<(String, u64)>),
}

/// What is shown of the models that are already there: a list, or a warning.
pub fn info_models(reading: &LocalReading, host: &str, port: u16) -> (r: Result<Vec<Block>, String>)
    ensures
        match *reading {
            LocalReading::Models(models) => r matches Ok(blocks) && display::block_views(blocks@)
                == display::local_blocks(models@),
            LocalReading::Failed(error) => r matches Err(warning) && warning@
                == "Warning: could not list local models: "@ + sanitize::line(error@.message()),
            LocalReading::Unreachable => r matches Err(warning) && warning@
                == "ollama is not reachable at "@ + sanitize::line(
                endpoint::base_url_text(host@, port),
            ),
        },
{
    match reading {
        LocalReading::Models(models) => Ok(display::print_local_models(models)),
        LocalReading::Failed(error) => {
            Err(
                "Warning: could not list local models: ".to_string().concat(
                    sanitize::terminal_line(error.message().as_str()).as_str(),
                ),
            )
        },
        LocalReading::Unreachable => {
            Err(
                "ollama is not reachable at ".to_string().concat(
                    sanitize::terminal_line(endpoint::base_url(host, port).as_str()).as_str(),
                ),
            )
        },
    }
}

// ---- laws ------------------------------------------------------------------

/// No command that talks to Ollama starts with a host on another machine unless
/// that is allowed.
pub proof fn law_remote_ollama_needs_permission(cli: Cli)
    requires
        run_fault(cli) is None,
        !(cli.command is Search),
    ensures
        cli.allow_remote_ollama || endpoint::is_loopback_text(cli.ollama_host@),
{
}

/// In quiet mode nothing is pulled that does not fit, and nobody is asked.
pub proof fn law_quiet_mode_pulls_only_what_fits(name: Seq<char>, outcome: OutcomeView, yes: bool)
    ensures
        match next_step(name, outcome, true, yes) {
            NextStepView::Pull { show } => outcome.fit.is_fit() && !show,
            NextStepView::Refuse(_) => !outcome.fit.is_fit(),
            NextStepView::Confirm(_) => false,
        },
{
}

/// What does not fit is pulled only with the user's word.
pub proof fn law_nonfit_needs_consent(name: Seq<char>, outcome: OutcomeView, quiet: bool)
    requires
        !outcome.fit.is_fit(),
    ensures
        !(next_step(name, outcome, quiet, false) is Pull),
{
}

/// A resolution looks up as many manifests as it needs; a search at most five
/// for each model, unless told otherwise.
pub proof fn law_default_lookup_caps(cli: Cli, fit: bool, all: bool)
    requires
        cli.max_manifest_lookups is None,
    ensures
        resolve_opts(cli).max_manifest_lookups is None,
        search_opts(cli, fit, all).max_manifest_lookups == Some(5usize),
{
}

/// A name with a question mark is resolved, any other is pulled as it is.
pub proof fn law_question_mark_asks_for_resolution(cli: Cli, interactive: bool)
    requires
        cli.command is Resolve,
    ensures
        asks_for_resolution(cli.command->Resolve_model@) ==> task_of(cli, interactive) is Resolve,
        !asks_for_resolution(cli.command->Resolve_model@) ==> (task_of(
            cli,
            interactive,
        ) matches Task::PullExact { model, .. } && model == cli.command->Resolve_model),
{
}

/// What is to be done holds every option of the request that bears on it.
pub proof fn law_task_carries_the_request(cli: Cli, interactive: bool)
    ensures
        match (cli.command, task_of(cli, interactive)) {
            (
                Commands::Search { query, limit, fit, no_fit, all, wide, macos },
                Task::Browse { query: q, limit: l, wide: w },
            ) => no_fit && q == query && l == limit && w == wide,
            (
                Commands::Search { query, limit, fit, no_fit, all, wide, macos },
                Task::Search { query: q, limit: l, wide: w, macos: m, gpu_fit_policy, opts },
            ) => {
                &&& !no_fit && q == query && l == limit && w == wide && m == macos
                &&& gpu_fit_policy == cli.gpu_fit_policy
                &&& opts.allow_split == cli.allow_split
                &&& opts.margin_pct == cli.margin
                &&& opts.context_tokens == cli.context_tokens
                &&& cli.max_manifest_lookups is Some ==> opts.max_manifest_lookups
                    == cli.max_manifest_lookups
                &&& opts.fit_filter == fit
                &&& opts.all == all
            },
            (
                Commands::Resolve { model, quiet, select, first, fail_on_ambiguous, yes },
                Task::Resolve {
                    model: m,
                    selection,
                    yes: y,
                    gpu_fit_policy,
                    opts,
                    host,
                    port,
                    pull_stall_timeout,
                },
            ) => {
                &&& model@.len() > 0 && model@[model@.len() - 1] == '?'
                &&& m == model && y == yes
                &&& selection.quiet == quiet && selection.select == select
                &&& selection.first == first && selection.fail_on_ambiguous == fail_on_ambiguous
                &&& selection.interactive == interactive
                &&& gpu_fit_policy == cli.gpu_fit_policy
                &&& opts.allow_split == cli.allow_split
                &&& opts.margin_pct == cli.margin
                &&& opts.context_tokens == cli.context_tokens
                &&& opts.max_manifest_lookups == cli.max_manifest_lookups
                &&& host == cli.ollama_host && port == cli.ollama_port
                &&& pull_stall_timeout == cli.pull_stall_timeout
            },
            (
                Commands::Resolve { model, quiet, .. },
                Task::PullExact { model: m, quiet: q, host, port, pull_stall_timeout },
            ) => {
                &&& model@.len() == 0 || model@[model@.len() - 1] != '?'
                &&& m == model && q == quiet
                &&& host == cli.ollama_host && port == cli.ollama_port
                &&& pull_stall_timeout == cli.pull_stall_timeout
            },
            (Commands::Info, Task::Info { gpu_fit_policy, host, port }) => gpu_fit_policy
                == cli.gpu_fit_policy && host == cli.ollama_host && port == cli.ollama_port,
            _ => false,
        },
{
}

/// A request is taken exactly when its numbers are in range, a command that talks to
/// Ollama may use its host, and the ways to choose a model do not conflict.
pub proof fn law_which_requests_are_taken(cli: Cli)
    ensures
        run_fault(cli) is None <==> {
            &&& cli.margin <= 500
            &&& cli.max_manifest_lookups != Some(0usize)
            &&& cli.pull_stall_timeout > 0
            &&& cli.context_tokens > 0
            &&& match cli.command {
                Commands::Search { .. } => true,
                Commands::Info => cli.allow_remote_ollama || endpoint::is_loopback_text(
                    cli.ollama_host@,
                ),
                Commands::Resolve { quiet, select, first, fail_on_ambiguous, .. } => (
                cli.allow_remote_ollama || endpoint::is_loopback_text(cli.ollama_host@))
                    && selection::option_fault(quiet, select, first, fail_on_ambiguous) is None,
            }
        },
{
}

/// What follows a resolution, in full: what fits is pulled, and shown unless in quiet
/// mode; what does not is refused in quiet mode, pulled after it was shown where the
/// user said so beforehand, and asked about otherwise.
pub proof fn law_what_follows_a_resolution(
    name: Seq<char>,
    outcome: OutcomeView,
    quiet: bool,
    yes: bool,
)
    ensures
        ({
            let fits = outcome.fit is FitsVram || outcome.fit is FitsWithSplit || outcome.fit
                is FitsRamOnly;
            let next = next_step(name, outcome, quiet, yes);
            &&& next is Pull <==> fits || (!quiet && yes)
            &&& next is Refuse <==> !fits && quiet
            &&& next is Confirm <==> !fits && !quiet && !yes
            &&& next matches NextStepView::Pull { show } ==> show == !quiet
        }),
{
}

/// A name with a question mark behind it asks for that name; the mark alone asks for
/// nothing, and a name without it is no question.
pub proof fn law_target_is_the_name_before_the_mark(name: Seq<char>)
    ensures
        name.len() > 0 ==> target_of(name.push('?')) == Ok::<_, ErrorView>(name),
        name.len() == 0 ==> target_of(name.push('?')) is Err,
        name.len() == 0 || name[name.len() - 1] != '?' ==> target_of(name) is Err,
{
    assert(name.push('?').drop_last() =~= name);
}

} // verus!
