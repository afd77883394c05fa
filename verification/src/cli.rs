//! The command line: what can be asked for, what holds where nothing is said, and
//! which requests contradict each other.

use vstd::prelude::*;

use crate::error::{ErrorView, ResolverError};
use crate::text;
use crate::types::GpuFitPolicy;

verus! {

/// A complete request.
#[derive(Debug, Clone, PartialEq, Eq)]
pub struct Cli {
    /// Let a model spread over GPU and system memory.
    pub allow_split: bool,
    /// Percentage added to the weights for cache and runtime.
    pub margin: u32,
    /// The host or base URL of Ollama.
    pub ollama_host: String,
    /// The port of Ollama; of no account where the host is a full URL.
    pub ollama_port: u16,
    /// Let the host be another machine.
    pub allow_remote_ollama: bool,
    /// How many manifests may be looked up for one model.
    pub max_manifest_lookups: Option<usize>,
    /// Seconds that a pull may go without data.
    pub pull_stall_timeout: u64,
    pub gpu_fit_policy: GpuFitPolicy,
    pub context_tokens: u32,
    pub command: Commands,
}

#[derive(Debug, Clone, PartialEq, Eq)]
pub enum Commands {
    /// Search ollama.com.
    Search {
        query: String,
        /// How many results to show.
        limit: usize,
        /// Show only models that fit.
        fit: bool,
        /// Browse without manifests and verdicts.
        no_fit: bool,
        /// Show every model.
        all: bool,
        /// Show a table instead of a line for each model.
        wide: bool,
        /// Show only variants for macOS.
        macos: bool,
    },
    /// Resolve a model whose name ends in `?`, or pull an exact one.
    Resolve {
        model: String,
        /// Print nothing but the final name.
        quiet: bool,
        /// Take this candidate, counted from 1, where no name matches exactly.
        select: Option<usize>,
        /// Take the first candidate where no name matches exactly.
        first: bool,
        /// Fail where no name matches exactly.
        fail_on_ambiguous: bool,
        /// Pull a model that does not fit without asking.
        yes: bool,
    },
    /// Show the machine and the models that are already there.
    Info,
}

/// A request as it was given: options that were left out are `None`.
#[derive(Debug, Clone, PartialEq, Eq)]
pub struct GivenOptions {
    pub allow_split: bool,
    pub margin: Option<u32>,
    pub ollama_host: Option<String>,
    pub ollama_port: Option<u16>,
    pub allow_remote_ollama: bool,
    pub max_manifest_lookups: Option<usize>,
    pub pull_stall_timeout: Option<u64>,
    /// The name of a policy.
    pub gpu_fit_policy: Option<String>,
    pub context_tokens: Option<u32>,
    pub command: GivenCommand,
}

#[derive(Debug, Clone, PartialEq, Eq)]
pub enum GivenCommand {
    Search {
        query: String,
        limit: Option<usize>,
        fit: bool,
        no_fit: bool,
        all: bool,
        wide: bool,
        macos: bool,
    },
    Resolve {
        model: String,
        quiet: bool,
        select: Option<usize>,
        first: bool,
        fail_on_ambiguous: bool,
        yes: bool,
    },
    Info,
}

pub const DEFAULT_MARGIN: u32 = 20;

pub const DEFAULT_OLLAMA_PORT: u16 = 11434;

pub const DEFAULT_PULL_STALL_TIMEOUT: u64 = 300;

pub const DEFAULT_CONTEXT_TOKENS: u32 = 8192;

pub const DEFAULT_SEARCH_LIMIT: usize = 20;

/// The policy of a given name.
pub open spec fn policy_named(name: Seq<char>) -> Option<GpuFitPolicy> {
    if name == GpuFitPolicy::Best.label_text() {
        Some(GpuFitPolicy::Best)
    } else if name == GpuFitPolicy::VisibleSum.label_text() {
        Some(GpuFitPolicy::VisibleSum)
    } else if name == GpuFitPolicy::AllSum.label_text() {
        Some(GpuFitPolicy::AllSum)
    } else {
        None
    }
}

/// Reads the name of a policy.
pub fn parse_gpu_fit_policy(name: &str) -> (r: Option<GpuFitPolicy>)
    ensures
        r == policy_named(name@),
{
    if text::same_text(name, "best") {
        Some(GpuFitPolicy::Best)
    } else if text::same_text(name, "visible-sum") {
        Some(GpuFitPolicy::VisibleSum)
    } else if text::same_text(name, "all-sum") {
        Some(GpuFitPolicy::AllSum)
    } else {
        None
    }
}

/// The options of a search that contradict each other.
pub open spec fn search_conflict(fit: bool, no_fit: bool, all: bool, macos: bool) -> Option<
    (Seq<char>, Seq<char>),
> {
    if no_fit && fit {
        Some(("--fit"@, "--no-fit"@))
    } else if no_fit && all {
        Some(("--all"@, "--no-fit"@))
    } else if no_fit && macos {
        Some(("--macos"@, "--no-fit"@))
    } else if macos && all {
        Some(("--macos"@, "--all"@))
    } else {
        None
    }
}

fn find_search_conflict(fit: bool, no_fit: bool, all: bool, macos: bool) -> (r: Option<
    (&'static str, &'static str),
>)
    ensures
        match r {
            Some((a, b)) => search_conflict(fit, no_fit, all, macos) == Some((a@, b@)),
            None => search_conflict(fit, no_fit, all, macos) is None,
        },
{
    if no_fit && fit {
        Some(("--fit", "--no-fit"))
    } else if no_fit && all {
        Some(("--all", "--no-fit"))
    } else if no_fit && macos {
        Some(("--macos", "--no-fit"))
    } else if macos && all {
        Some(("--macos", "--all"))
    } else {
        None
    }
}

/// What is wrong with a request, if anything.
pub open spec fn request_fault(given: GivenOptions) -> Option<Seq<char>> {
    match (given.gpu_fit_policy, given.command) {
        (Some(name), _) if policy_named(name@) is None => Some(
            "invalid value '"@ + name@ + "' for '--gpu-fit-policy'"@,
        ),
        (_, GivenCommand::Search { fit, no_fit, all, macos, .. }) => match search_conflict(
            fit,
            no_fit,
            all,
            macos,
        ) {
            Some((a, b)) => Some("the argument '"@ + a + "' cannot be used with '"@ + b + "'"@),
            None => None,
        },
        _ => None,
    }
}

pub open spec fn given_or<T>(given: Option<T>, otherwise: T) -> T {
    match given {
        Some(x) => x,
        None => otherwise,
    }
}

pub open spec fn is_completed_command(given: GivenCommand, command: Commands) -> bool {
    match given {
        GivenCommand::Search { query, limit, fit, no_fit, all, wide, macos } => command
            == Commands::Search {
            query,
            limit: given_or(limit, DEFAULT_SEARCH_LIMIT),
            fit,
            no_fit,
            all,
            wide,
            macos,
        },
        GivenCommand::Resolve { model, quiet, select, first, fail_on_ambiguous, yes } => command
            == Commands::Resolve { model, quiet, select, first, fail_on_ambiguous, yes },
        GivenCommand::Info => command == Commands::Info,
    }
}

/// The request holds what was given, and a default for each option that was not.
pub open spec fn is_completed(given: GivenOptions, cli: Cli) -> bool {
    &&& cli.allow_split == given.allow_split
    &&& cli.margin == given_or(given.margin, DEFAULT_MARGIN)
    &&& cli.ollama_host@ == (match given.ollama_host {
        Some(host) => host@,
        None => "127.0.0.1"@,
    })
    &&& cli.ollama_port == given_or(given.ollama_port, DEFAULT_OLLAMA_PORT)
    &&& cli.allow_remote_ollama == given.allow_remote_ollama
    &&& cli.max_manifest_lookups == given.max_manifest_lookups
    &&& cli.pull_stall_timeout == given_or(given.pull_stall_timeout, DEFAULT_PULL_STALL_TIMEOUT)
    &&& cli.gpu_fit_policy == (match given.gpu_fit_policy {
        Some(name) => policy_named(name@)->Some_0,
        None => GpuFitPolicy::Best,
    })
    &&& cli.context_tokens == given_or(given.context_tokens, DEFAULT_CONTEXT_TOKENS)
    &&& is_completed_command(given.command, cli.command)
}

impl Cli {
    /// Completes a request with the defaults, and refuses one that contradicts
    /// itself.
    pub fn from_given(given: GivenOptions) -> (r: Result<Cli, ResolverError>)
        ensures
            match request_fault(given) {
                Some(fault) => r matches Err(e) && e@ == ErrorView::InvalidInput(fault),
                None => r matches Ok(cli) && is_completed(given, cli),
            },
    {
        let gpu_fit_policy = match &given.gpu_fit_policy {
            Some(name) => match parse_gpu_fit_policy(name.as_str()) {
                Some(policy) => policy,
                None => {
                    return Err(
                        ResolverError::InvalidInput(
                            "invalid value '".to_string().concat(name.as_str()).concat(
                                "' for '--gpu-fit-policy'",
                            ),
                        ),
                    );
                },
            },
            None => GpuFitPolicy::Best,
        };
        let command = match given.command {
            GivenCommand::Search { query, limit, fit, no_fit, all, wide, macos } => {
                if let Some((a, b)) = find_search_conflict(fit, no_fit, all, macos) {
                    return Err(
                        ResolverError::InvalidInput(
                            "the argument '".to_string().concat(a).concat(
                                "' cannot be used with '",
                            ).concat(b).concat("'"),
                        ),
                    );
                }
                let limit: usize = match limit {
                    Some(n) => n,
                    None => DEFAULT_SEARCH_LIMIT,
                };
                Commands::Search { query, limit, fit, no_fit, all, wide, macos }
            },
            GivenCommand::Resolve { model, quiet, select, first, fail_on_ambiguous, yes } => {
                Commands::Resolve { model, quiet, select, first, fail_on_ambiguous, yes }
            },
            GivenCommand::Info => Commands::Info,
        };
        Ok(
            Cli {
                allow_split: given.allow_split,
                margin: match given.margin {
                    Some(n) => n,
                    None => DEFAULT_MARGIN,
                },
                ollama_host: match given.ollama_host {
                    Some(host) => host,
                    None => "127.0.0.1".to_string(),
                },
                ollama_port: match given.ollama_port {
                    Some(n) => n,
                    None => DEFAULT_OLLAMA_PORT,
                },
                allow_remote_ollama: given.allow_remote_ollama,
                max_manifest_lookups: given.max_manifest_lookups,
                pull_stall_timeout: match given.pull_stall_timeout {
                    Some(n) => n,
                    None => DEFAULT_PULL_STALL_TIMEOUT,
                },
                gpu_fit_policy,
                context_tokens: match given.context_tokens {
                    Some(n) => n,
                    None => DEFAULT_CONTEXT_TOKENS,
                },
                command,
            },
        )
    }
}

/// Every policy is found under its own name.
pub proof fn law_policy_names_are_distinct(policy: GpuFitPolicy)
    ensures
        policy_named(policy.label_text()) == Some(policy),
{
    reveal_strlit("best");
    reveal_strlit("visible-sum");
    reveal_strlit("all-sum");
    assert("best"@.len() == 4);
    assert("visible-sum"@.len() == 11);
    assert("all-sum"@.len() == 7);
}

/// The names of the policies.
pub proof fn law_policy_names(name: Seq<char>)
    ensures
        policy_named("best"@) == Some(GpuFitPolicy::Best),
        policy_named("visible-sum"@) == Some(GpuFitPolicy::VisibleSum),
        policy_named("all-sum"@) == Some(GpuFitPolicy::AllSum),
        name != "best"@ && name != "visible-sum"@ && name != "all-sum"@ ==> policy_named(name)
            is None,
{
    reveal_strlit("best");
    reveal_strlit("visible-sum");
    reveal_strlit("all-sum");
    assert("best"@.len() == 4);
    assert("visible-sum"@.len() == 11);
    assert("all-sum"@.len() == 7);
}

/// What was given is taken as it is; where nothing was given, the margin is 20, the
/// context 8192 tokens, a stall 300 seconds, the port 11434, the host this machine,
/// the policy that of the best GPU, and a search shows 20 results.
pub proof fn law_defaults(given: GivenOptions, cli: Cli)
    requires
        is_completed(given, cli),
    ensures
        cli.allow_split == given.allow_split,
        cli.allow_remote_ollama == given.allow_remote_ollama,
        cli.max_manifest_lookups == given.max_manifest_lookups,
        given.margin matches Some(n) ==> cli.margin == n,
        given.margin is None ==> cli.margin == 20,
        given.context_tokens matches Some(n) ==> cli.context_tokens == n,
        given.context_tokens is None ==> cli.context_tokens == 8192,
        given.pull_stall_timeout matches Some(n) ==> cli.pull_stall_timeout == n,
        given.pull_stall_timeout is None ==> cli.pull_stall_timeout == 300,
        given.ollama_port matches Some(n) ==> cli.ollama_port == n,
        given.ollama_port is None ==> cli.ollama_port == 11434,
        given.ollama_host matches Some(host) ==> cli.ollama_host@ == host@,
        given.ollama_host is None ==> cli.ollama_host@ == "127.0.0.1"@,
        given.gpu_fit_policy is None ==> cli.gpu_fit_policy == GpuFitPolicy::Best,
        given.gpu_fit_policy matches Some(name) ==> (policy_named(name@) matches Some(policy)
            ==> cli.gpu_fit_policy == policy),
        match (given.command, cli.command) {
            (
                GivenCommand::Search { query, limit, fit, no_fit, all, wide, macos },
                Commands::Search {
                    query: q,
                    limit: l,
                    fit: f,
                    no_fit: n,
                    all: a,
                    wide: w,
                    macos: m,
                },
            ) => q == query && (limit matches Some(k) ==> l == k) && (limit is None ==> l == 20) && f
                == fit && n == no_fit && a == all && w == wide && m == macos,
            (
                GivenCommand::Resolve { model, quiet, select, first, fail_on_ambiguous, yes },
                Commands::Resolve {
                    model: m,
                    quiet: q,
                    select: s,
                    first: f,
                    fail_on_ambiguous: o,
                    yes: y,
                },
            ) => m == model && q == quiet && s == select && f == first && o == fail_on_ambiguous && y
                == yes,
            (GivenCommand::Info, Commands::Info) => true,
            _ => false,
        },
{
}

/// A request contradicts itself exactly when its policy has no such name, when a quick
/// search is to judge or to show all or macOS variants, or when macOS variants are
/// asked for along with all.
pub proof fn law_which_requests_contradict_themselves(given: GivenOptions)
    ensures
        request_fault(given) is None <==> {
            &&& given.gpu_fit_policy matches Some(name) ==> policy_named(name@) is Some
            &&& given.command matches GivenCommand::Search { fit, no_fit, all, macos, .. } ==> !(
            no_fit && (fit || all || macos)) && !(macos && all)
        },
{
}

} // verus!
