//! Choosing the variant of a model: which manifests are looked up, in which
//! order, and what follows from the replies.

use vstd::prelude::*;

use crate::error::{ErrorView, ResolverError};
use crate::fit;
use crate::order;
use crate::rank;
use crate::registry::{Lookup, Registry};
use crate::text;
use crate::types::{FitResult, HardwareProfile, ModelVariant, TagInfo, VariantView};

pub use crate::fit::{
    check_fit, context_margin_pct, effective_margin_pct, estimate_runtime_bytes, ResolveOpts,
};

verus! {

// ---- results ---------------------------------------------------------------

/// What became of one tag.
#[derive(Debug, Clone, PartialEq, Eq)]
pub struct CandidateTrace {
    pub full_ref: String,
    pub approx_size: Option<String>,
    pub decision: String,
}

pub struct TraceView {
    pub full_ref: Seq<char>,
    pub approx_size: Option<Seq<char>>,
    pub decision: Seq<char>,
}

impl View for CandidateTrace {
    type V = TraceView;

    open spec fn view(&self) -> TraceView {
        TraceView {
            full_ref: self.full_ref@,
            approx_size: text::opt_text(self.approx_size),
            decision: self.decision@,
        }
    }
}

pub open spec fn traces(list: Seq<CandidateTrace>) -> Seq<TraceView> {
    Seq::new(list.len(), |i: int| list[i]@)
}

/// How a resolution came about.
#[derive(Debug, Clone, PartialEq, Eq)]
pub struct ResolutionDiagnostics {
    pub approx_deferred: Vec<CandidateTrace>,
    pub manifest_checked: Vec<CandidateTrace>,
    pub manifest_skipped_by_cap: Vec<CandidateTrace>,
}

pub struct DiagnosticsView {
    pub approx_deferred: Seq<TraceView>,
    pub manifest_checked: Seq<TraceView>,
    pub manifest_skipped_by_cap: Seq<TraceView>,
}

impl View for ResolutionDiagnostics {
    type V = DiagnosticsView;

    open spec fn view(&self) -> DiagnosticsView {
        DiagnosticsView {
            approx_deferred: traces(self.approx_deferred@),
            manifest_checked: traces(self.manifest_checked@),
            manifest_skipped_by_cap: traces(self.manifest_skipped_by_cap@),
        }
    }
}

impl Default for ResolutionDiagnostics {
    fn default() -> (r: ResolutionDiagnostics)
        ensures
            r.approx_deferred@.len() == 0,
            r.manifest_checked@.len() == 0,
            r.manifest_skipped_by_cap@.len() == 0,
    {
        ResolutionDiagnostics {
            approx_deferred: Vec::new(),
            manifest_checked: Vec::new(),
            manifest_skipped_by_cap: Vec::new(),
        }
    }
}

#[derive(Debug, Clone)]
pub struct ResolutionOutcome {
    pub variant: ModelVariant,
    pub fit: FitResult,
    pub diagnostics: ResolutionDiagnostics,
}

pub struct OutcomeView {
    pub variant: VariantView,
    pub fit: FitResult,
    pub diagnostics: DiagnosticsView,
}

impl View for ResolutionOutcome {
    type V = OutcomeView;

    open spec fn view(&self) -> OutcomeView {
        OutcomeView { variant: self.variant@, fit: self.fit, diagnostics: self.diagnostics@ }
    }
}

// ---- the plan --------------------------------------------------------------

/// The tag page's size hint says that the tag is too large for the machine.
pub open spec fn hint_rejects(tag: TagInfo, hw: HardwareProfile, opts: ResolveOpts) -> bool {
    match tag.approx_bytes() {
        Some(bytes) => bytes > hw.disk_free || fit::runtime_estimate(
            bytes,
            fit::effective_margin(opts),
        ) > hw.runtime_bytes(opts.allow_split),
        None => false,
    }
}

pub fn approx_rejects_candidate(candidate: &TagInfo, hw: &HardwareProfile, opts: &ResolveOpts) -> (r:
    bool)
    ensures
        r == hint_rejects(*candidate, *hw, *opts),
{
    match candidate.approx_size_bytes() {
        Some(bytes) => bytes > hw.disk_free || fit::estimate_runtime_bytes(
            bytes,
            fit::effective_margin_pct(opts),
        ) > hw.available_runtime_bytes(opts.allow_split),
        None => false,
    }
}

/// The positions of the tags that the size hint rejects (or does not), in order.
pub open spec fn hinted(
    tags: Seq<TagInfo>,
    hw: HardwareProfile,
    opts: ResolveOpts,
    rejected: bool,
) -> Seq<usize>
    decreases tags.len(),
{
    if tags.len() == 0 {
        Seq::empty()
    } else {
        let rest = hinted(tags.drop_last(), hw, opts, rejected);
        if hint_rejects(tags.last(), hw, opts) == rejected {
            rest.push((tags.len() - 1) as usize)
        } else {
            rest
        }
    }
}

/// Which tags are looked up first, and which only if none of those fits.
#[derive(Debug, Clone, PartialEq, Eq)]
pub struct ManifestEvaluationPlan {
    pub primary: Vec<usize>,
    pub approx_rejected: Vec<usize>,
}

pub fn manifest_evaluation_plan(
    candidates: &Vec<TagInfo>,
    hw: &HardwareProfile,
    opts: &ResolveOpts,
) -> (r: ManifestEvaluationPlan)
    ensures
        r.primary@ == hinted(candidates@, *hw, *opts, false),
        r.approx_rejected@ == hinted(candidates@, *hw, *opts, true),
{
    let mut plan = ManifestEvaluationPlan { primary: Vec::new(), approx_rejected: Vec::new() };
    for i in 0..candidates.len()
        invariant
            plan.primary@ == hinted(candidates@.take(i as int), *hw, *opts, false),
            plan.approx_rejected@ == hinted(candidates@.take(i as int), *hw, *opts, true),
    {
        assert(candidates@.take(i + 1).drop_last() =~= candidates@.take(i as int));
        if approx_rejects_candidate(&candidates[i], hw, opts) {
            plan.approx_rejected.push(i);
        } else {
            plan.primary.push(i);
        }
    }
    assert(candidates@.take(candidates@.len() as int) =~= candidates@);
    plan
}

/// A tag to look up; `deferred` where the size hint put it behind the others.
pub struct Visit {
    pub tag: TagInfo,
    pub deferred: bool,
}

pub open spec fn visits_of(tags: Seq<TagInfo>, positions: Seq<usize>, deferred: bool) -> Seq<Visit> {
    Seq::new(positions.len(), |i: int| Visit { tag: tags[positions[i] as int], deferred })
}

/// The tags in the order in which their manifests are looked up: those that may
/// fit by their size hint, then the others.
pub open spec fn visits(tags: Seq<TagInfo>, hw: HardwareProfile, opts: ResolveOpts) -> Seq<Visit> {
    visits_of(tags, hinted(tags, hw, opts, false), false) + visits_of(
        tags,
        hinted(tags, hw, opts, true),
        true,
    )
}

// ---- one candidate ---------------------------------------------------------

pub open spec fn trace_of(tag: TagInfo, decision: Seq<char>) -> TraceView {
    TraceView {
        full_ref: tag.full_ref@,
        approx_size: text::opt_text(tag.approx_size),
        decision,
    }
}

fn candidate_trace(tag_info: &TagInfo, decision: String) -> (r: CandidateTrace)
    ensures
        r@ == trace_of(*tag_info, decision@),
{
    CandidateTrace {
        full_ref: tag_info.full_ref.clone(),
        approx_size: text::copy_opt(&tag_info.approx_size),
        decision,
    }
}

/// The variant that a tag with the given sizes stands for.
pub open spec fn variant_of(
    model: Seq<char>,
    tag: TagInfo,
    sizes: (u64, u64),
    opts: ResolveOpts,
) -> VariantView {
    VariantView {
        name: model,
        tag: tag.tag@,
        full_ref: tag.full_ref@,
        weights_bytes: sizes.0,
        total_bytes: sizes.1,
        estimated_runtime_bytes: fit::runtime_estimate(sizes.0, fit::effective_margin(opts)),
        runtime_margin_pct: fit::effective_margin(opts),
        context_tokens: opts.context_tokens,
        param_billions: tag.param_billions,
        quantization: text::opt_text(tag.quantization),
        is_instruct: tag.is_instruct,
    }
}

/// The verdict on a variant with the given sizes.
pub open spec fn sized_verdict(sizes: (u64, u64), hw: HardwareProfile, opts: ResolveOpts) -> FitResult {
    fit::verdict(
        sizes.1,
        fit::runtime_estimate(sizes.0, fit::effective_margin(opts)),
        hw,
        opts.allow_split,
    )
}

/// What a manifest lookup says of a candidate.
pub enum CandidateEvaluation {
    Evaluated(ModelVariant, FitResult),
    MissingManifest(String),
    /// The registry serves the candidate to macOS only; holds the HTTP status.
    PlatformRestricted(u16),
    /// There are no weights to run locally.
    CloudOnly,
}

/// Turns the reply to a manifest lookup into an evaluation. Errors that leave the
/// sizes in doubt are passed on.
pub fn evaluate_reply(
    model: &str,
    tag_info: &TagInfo,
    hw: &HardwareProfile,
    opts: &ResolveOpts,
    reply: Result<(u64, u64), ResolverError>,
) -> (r: Result<CandidateEvaluation, ResolverError>)
    ensures
        match reply {
            Ok(sizes) => r matches Ok(CandidateEvaluation::Evaluated(variant, fit)) && variant@
                == variant_of(model@, *tag_info, sizes, *opts) && fit == sized_verdict(
                sizes,
                *hw,
                *opts,
            ),
            Err(ResolverError::ManifestMissing { detail, .. }) => r == Ok::<_, ResolverError>(
                CandidateEvaluation::MissingManifest(detail),
            ),
            Err(ResolverError::ManifestCloudOnly { .. }) => r == Ok::<_, ResolverError>(
                CandidateEvaluation::CloudOnly,
            ),
            Err(ResolverError::ManifestPlatformRestricted { status, .. }) => r == Ok::<
                _,
                ResolverError,
            >(CandidateEvaluation::PlatformRestricted(status)),
            Err(e) => r == Err::<CandidateEvaluation, _>(e),
        },
{
    let (weights_bytes, total_bytes) = match reply {
        Ok(sizes) => sizes,
        Err(ResolverError::ManifestMissing { detail, .. }) => {
            return Ok(CandidateEvaluation::MissingManifest(detail));
        },
        Err(ResolverError::ManifestCloudOnly { .. }) => {
            return Ok(CandidateEvaluation::CloudOnly);
        },
        Err(ResolverError::ManifestPlatformRestricted { status, .. }) => {
            return Ok(CandidateEvaluation::PlatformRestricted(status));
        },
        Err(err) => {
            return Err(err);
        },
    };
    let runtime_margin_pct = fit::effective_margin_pct(opts);
    let variant = ModelVariant {
        name: model.to_string(),
        tag: tag_info.tag.clone(),
        full_ref: tag_info.full_ref.clone(),
        weights_bytes,
        total_bytes,
        estimated_runtime_bytes: fit::estimate_runtime_bytes(weights_bytes, runtime_margin_pct),
        runtime_margin_pct,
        context_tokens: opts.context_tokens,
        param_billions: tag_info.param_billions,
        quantization: text::copy_opt(&tag_info.quantization),
        is_instruct: tag_info.is_instruct,
    };
    let fit = fit::check_fit(&variant, hw, opts);
    Ok(CandidateEvaluation::Evaluated(variant, fit))
}

// ---- the walk through the candidates ---------------------------------------

/// What is known after some of the candidates.
pub struct ProgressView {
    pub diagnostics: DiagnosticsView,
    /// The smallest variant that was sized and does not fit.
    pub smallest: Option<(VariantView, FitResult)>,
    /// The first candidate that is for macOS only, with the HTTP status.
    pub platform_restricted: Option<(Seq<char>, u16)>,
    /// The first candidate without local weights.
    pub cloud_only: Option<Seq<char>>,
    pub lookups: nat,
}

/// Where the walk stands: under way, ended with a variant that fits, or ended by
/// an error. The numbers say how many manifests were looked up.
pub enum Walk {
    Going(ProgressView),
    Selected(OutcomeView, nat),
    Failed(ResolverError, nat),
}

impl ProgressView {
    pub open spec fn checked(self, trace: TraceView) -> ProgressView {
        ProgressView {
            diagnostics: DiagnosticsView {
                manifest_checked: self.diagnostics.manifest_checked.push(trace),
                ..self.diagnostics
            },
            lookups: self.lookups + 1,
            ..self
        }
    }

    pub open spec fn skipped(self, tag: TagInfo) -> ProgressView {
        ProgressView {
            diagnostics: DiagnosticsView {
                manifest_skipped_by_cap: self.diagnostics.manifest_skipped_by_cap.push(
                    trace_of(tag, "not checked; --max-manifest-lookups reached"@),
                ),
                ..self.diagnostics
            },
            ..self
        }
    }

    /// A variant takes the place of the smallest so far if it is smaller.
    pub open spec fn with_nonfit(self, variant: VariantView, fit: FitResult) -> ProgressView {
        match self.smallest {
            Some((current, _)) if current.weights_bytes <= variant.weights_bytes => self,
            _ => ProgressView { smallest: Some((variant, fit)), ..self },
        }
    }

    pub open spec fn with_platform_restricted(self, tag: Seq<char>, status: u16) -> ProgressView {
        if self.platform_restricted is Some {
            self
        } else {
            ProgressView { platform_restricted: Some((tag, status)), ..self }
        }
    }

    pub open spec fn with_cloud_only(self, tag: Seq<char>) -> ProgressView {
        if self.cloud_only is Some {
            self
        } else {
            ProgressView { cloud_only: Some(tag), ..self }
        }
    }
}

pub open spec fn selected_text(deferred: bool) -> Seq<char> {
    if deferred {
        "selected after exact manifest overrode page-size hint"@
    } else {
        "selected"@
    }
}

/// One more lookup: what follows from the reply for the tag `visit`.
pub open spec fn after_reply(
    model: Seq<char>,
    visit: Visit,
    hw: HardwareProfile,
    opts: ResolveOpts,
    progress: ProgressView,
    reply: Result<(u64, u64), ResolverError>,
) -> Walk {
    let tag = visit.tag;
    match reply {
        Ok(sizes) => {
            let variant = variant_of(model, tag, sizes, opts);
            let fit = sized_verdict(sizes, hw, opts);
            if fit.is_fit() {
                Walk::Selected(
                    OutcomeView {
                        variant,
                        fit,
                        diagnostics: progress.checked(
                            trace_of(tag, selected_text(visit.deferred)),
                        ).diagnostics,
                    },
                    progress.lookups + 1,
                )
            } else {
                Walk::Going(
                    progress.checked(trace_of(tag, fit.summary_text(Seq::empty()))).with_nonfit(
                        variant,
                        fit,
                    ),
                )
            }
        },
        Err(ResolverError::ManifestMissing { detail, .. }) => Walk::Going(
            progress.checked(trace_of(tag, "manifest missing; skipped ("@ + detail@ + ")"@)),
        ),
        Err(ResolverError::ManifestCloudOnly { .. }) => Walk::Going(
            progress.checked(trace_of(tag, "cloud-only model; no local weights"@)).with_cloud_only(
                tag.tag@,
            ),
        ),
        Err(ResolverError::ManifestPlatformRestricted { status, .. }) => Walk::Going(
            progress.checked(
                trace_of(
                    tag,
                    "platform-restricted (HTTP "@ + text::decimal(status as nat)
                        + "); requires macOS"@,
                ),
            ).with_platform_restricted(tag.tag@, status),
        ),
        Err(e) => Walk::Failed(e, progress.lookups + 1),
    }
}

pub open spec fn cap_reached(opts: ResolveOpts, lookups: nat) -> bool {
    match opts.max_manifest_lookups {
        Some(max) => lookups >= max,
        None => false,
    }
}

/// The walk through the first `n` of the tags to visit. `replies` are the replies
/// to the lookups, in order.
pub open spec fn walk(
    model: Seq<char>,
    visits: Seq<Visit>,
    n: nat,
    hw: HardwareProfile,
    opts: ResolveOpts,
    replies: Seq<Result<(u64, u64), ResolverError>>,
    start: ProgressView,
) -> Walk
    decreases n,
{
    if n == 0 {
        Walk::Going(start)
    } else {
        match walk(model, visits, (n - 1) as nat, hw, opts, replies, start) {
            Walk::Going(progress) => {
                let visit = visits[n - 1];
                if cap_reached(opts, progress.lookups) {
                    Walk::Going(progress.skipped(visit.tag))
                } else {
                    after_reply(
                        model,
                        visit,
                        hw,
                        opts,
                        progress,
                        replies[progress.lookups as int],
                    )
                }
            },
            ended => ended,
        }
    }
}

pub open spec fn deferred_traces(
    tags: Seq<TagInfo>,
    hw: HardwareProfile,
    opts: ResolveOpts,
) -> Seq<TraceView> {
    let positions = hinted(tags, hw, opts, true);
    Seq::new(
        positions.len(),
        |i: int|
            trace_of(
                tags[positions[i] as int],
                "page-size hint exceeded capacity; checked only if primary candidates do not fit"@,
            ),
    )
}

/// Before the first lookup.
pub open spec fn at_start(tags: Seq<TagInfo>, hw: HardwareProfile, opts: ResolveOpts) -> ProgressView {
    ProgressView {
        diagnostics: DiagnosticsView {
            approx_deferred: deferred_traces(tags, hw, opts),
            manifest_checked: Seq::empty(),
            manifest_skipped_by_cap: Seq::empty(),
        },
        smallest: None,
        platform_restricted: None,
        cloud_only: None,
        lookups: 0,
    }
}

/// A line for each candidate: its name and what became of it.
pub open spec fn attempt_lines(list: Seq<TraceView>) -> Seq<Seq<char>> {
    Seq::new(list.len(), |i: int| "- "@ + list[i].full_ref + ": "@ + list[i].decision)
}

pub open spec fn failure_summary(d: DiagnosticsView) -> Seq<char> {
    let lines = attempt_lines(d.manifest_checked) + attempt_lines(d.manifest_skipped_by_cap);
    if lines.len() == 0 {
        "- no manifest lookups were attempted"@
    } else {
        text::join(lines, "\n"@)
    }
}

/// What is reported when no candidate fits: the smallest that was sized, else
/// that the model is for macOS only, else that it has no local weights, else all
/// that was tried.
pub open spec fn conclusion(model: Seq<char>, progress: ProgressView) -> Result<
    OutcomeView,
    ErrorView,
> {
    match (progress.smallest, progress.platform_restricted, progress.cloud_only) {
        (Some((variant, fit)), _, _) => Ok(
            OutcomeView { variant, fit, diagnostics: progress.diagnostics },
        ),
        (None, Some((tag, status)), _) => Err(
            ErrorView::ManifestPlatformRestricted { model, tag, status },
        ),
        (None, None, Some(tag)) => Err(ErrorView::ManifestCloudOnly { model, tag }),
        (None, None, None) => Err(
            ErrorView::NoUsableManifest { model, attempts: failure_summary(progress.diagnostics) },
        ),
    }
}

/// What is known after some of the candidates.
pub struct Progress {
    diagnostics: ResolutionDiagnostics,
    smallest: Option<(ModelVariant, FitResult)>,
    platform_restricted: Option<(String, u16)>,
    cloud_only: Option<String>,
    lookups: usize,
}

impl View for Progress {
    type V = ProgressView;

    closed spec fn view(&self) -> ProgressView {
        ProgressView {
            diagnostics: self.diagnostics@,
            smallest: match self.smallest {
                Some((variant, fit)) => Some((variant@, fit)),
                None => None,
            },
            platform_restricted: match self.platform_restricted {
                Some((tag, status)) => Some((tag@, status)),
                None => None,
            },
            cloud_only: text::opt_text(self.cloud_only),
            lookups: self.lookups as nat,
        }
    }
}

fn diagnostics_from_plan(candidates: &Vec<TagInfo>, plan: &ManifestEvaluationPlan) -> (r:
    ResolutionDiagnostics)
    requires
        forall|i: int|
            0 <= i < plan.approx_rejected@.len() ==> (#[trigger] plan.approx_rejected@[i])
                < candidates@.len(),
    ensures
        traces(r.approx_deferred@) =~= Seq::new(
            plan.approx_rejected@.len(),
            |i: int|
                trace_of(
                    candidates@[plan.approx_rejected@[i] as int],
                    "page-size hint exceeded capacity; checked only if primary candidates do not fit"@,
                ),
        ),
        r.manifest_checked@.len() == 0,
        r.manifest_skipped_by_cap@.len() == 0,
{
    let mut r = ResolutionDiagnostics::default();
    for i in 0..plan.approx_rejected.len()
        invariant
            forall|j: int|
                0 <= j < plan.approx_rejected@.len() ==> (#[trigger] plan.approx_rejected@[j])
                    < candidates@.len(),
            r.approx_deferred@.len() == i,
            forall|j: int|
                0 <= j < i ==> (#[trigger] r.approx_deferred@[j])@ == trace_of(
                    candidates@[plan.approx_rejected@[j] as int],
                    "page-size hint exceeded capacity; checked only if primary candidates do not fit"@,
                ),
            r.manifest_checked@.len() == 0,
            r.manifest_skipped_by_cap@.len() == 0,
    {
        let p: usize = plan.approx_rejected[i];
        r.approx_deferred.push(
            candidate_trace(
                &candidates[p],
                "page-size hint exceeded capacity; checked only if primary candidates do not fit".to_string(),
            ),
        );
    }
    r
}

impl Progress {
    /// The plan for the ranked candidates, and the start of the walk through them.
    pub fn start(candidates: &Vec<TagInfo>, hw: &HardwareProfile, opts: &ResolveOpts) -> (r: (
        ManifestEvaluationPlan,
        Progress,
    ))
        ensures
            r.0.primary@ == hinted(candidates@, *hw, *opts, false),
            r.0.approx_rejected@ == hinted(candidates@, *hw, *opts, true),
            r.1@ == at_start(candidates@, *hw, *opts),
    {
        let plan = manifest_evaluation_plan(candidates, hw, opts);
        assert(candidates.len() <= usize::MAX);
        proof {
            lemma_plan(candidates@, *hw, *opts);
            assert forall|i: int| 0 <= i < plan.approx_rejected@.len() implies (
            #[trigger] plan.approx_rejected@[i]) < candidates@.len() by {
                assert(hinted(candidates@, *hw, *opts, true)[i] < candidates@.len());
            }
        }
        let progress = Progress {
            diagnostics: diagnostics_from_plan(candidates, &plan),
            smallest: None,
            platform_restricted: None,
            cloud_only: None,
            lookups: 0,
        };
        proof {
            let s = at_start(candidates@, *hw, *opts);
            assert(progress@.diagnostics.approx_deferred =~= s.diagnostics.approx_deferred);
            assert(progress@.diagnostics.manifest_checked =~= s.diagnostics.manifest_checked);
            assert(progress@.diagnostics.manifest_skipped_by_cap
                =~= s.diagnostics.manifest_skipped_by_cap);
        }
        (plan, progress)
    }

    /// Whether no further manifest may be looked up.
    pub fn is_capped(&self, opts: &ResolveOpts) -> (r: bool)
        ensures
            r == cap_reached(*opts, self@.lookups),
    {
        match opts.max_manifest_lookups {
            Some(max) => self.lookups >= max,
            None => false,
        }
    }

    /// Notes that a candidate was passed over because of the cap.
    pub fn skip(&mut self, tag_info: &TagInfo)
        ensures
            final(self)@ == old(self)@.skipped(*tag_info),
    {
        self.diagnostics.manifest_skipped_by_cap.push(
            candidate_trace(tag_info, "not checked; --max-manifest-lookups reached".to_string()),
        );
        assert(self@.diagnostics.manifest_skipped_by_cap =~= old(
            self,
        )@.skipped(*tag_info).diagnostics.manifest_skipped_by_cap);
    }

    fn note_checked(&mut self, tag_info: &TagInfo, decision: String)
        requires
            old(self)@.lookups < usize::MAX,
        ensures
            final(self)@ == old(self)@.checked(trace_of(*tag_info, decision@)),
    {
        self.diagnostics.manifest_checked.push(candidate_trace(tag_info, decision));
        self.lookups = self.lookups + 1;
        assert(self@.diagnostics.manifest_checked =~= old(self)@.checked(
            trace_of(*tag_info, decision@),
        ).diagnostics.manifest_checked);
    }

    fn note_nonfit(&mut self, variant: ModelVariant, fit: FitResult)
        ensures
            final(self)@ == old(self)@.with_nonfit(variant@, fit),
    {
        let keep = match &self.smallest {
            Some((current, _)) => current.weights_bytes <= variant.weights_bytes,
            None => false,
        };
        if !keep {
            self.smallest = Some((variant, fit));
        }
    }

    /// Takes in the reply to a lookup. The variant is returned if it fits.
    pub fn record(
        &mut self,
        model: &str,
        tag_info: &TagInfo,
        deferred: bool,
        hw: &HardwareProfile,
        opts: &ResolveOpts,
        reply: Result<(u64, u64), ResolverError>,
    ) -> (r: Result<Option<(ModelVariant, FitResult)>, ResolverError>)
        requires
            old(self)@.lookups < usize::MAX,
        ensures
            match after_reply(
                model@,
                Visit { tag: *tag_info, deferred },
                *hw,
                *opts,
                old(self)@,
                reply,
            ) {
                Walk::Going(progress) => r == Ok::<_, ResolverError>(
                    None::<(ModelVariant, FitResult)>,
                ) && final(self)@ == progress,
                Walk::Selected(outcome, n) => r matches Ok(Some((variant, fit))) && OutcomeView {
                    variant: variant@,
                    fit,
                    diagnostics: final(self)@.diagnostics,
                } == outcome && final(self)@ == (ProgressView {
                    diagnostics: outcome.diagnostics,
                    lookups: n,
                    ..old(self)@
                }),
                Walk::Failed(e, n) => r == Err::<Option<(ModelVariant, FitResult)>, _>(e)
                    && final(self)@ == (ProgressView { lookups: n, ..old(self)@ }),
            },
    {
        match evaluate_reply(model, tag_info, hw, opts, reply) {
            Err(e) => {
                self.lookups = self.lookups + 1;
                Err(e)
            },
            Ok(CandidateEvaluation::MissingManifest(detail)) => {
                self.note_checked(
                    tag_info,
                    "manifest missing; skipped (".to_string().concat(detail.as_str()).concat(")"),
                );
                Ok(None)
            },
            Ok(CandidateEvaluation::Evaluated(variant, fit)) => {
                if fit.fits() {
                    let decision = if deferred {
                        "selected after exact manifest overrode page-size hint".to_string()
                    } else {
                        "selected".to_string()
                    };
                    self.note_checked(tag_info, decision);
                    Ok(Some((variant, fit)))
                } else {
                    let summary = fit.summary("");
                    proof {
                        reveal_strlit("");
                        assert(""@ =~= Seq::<char>::empty());
                    }
                    self.note_checked(tag_info, summary);
                    self.note_nonfit(variant, fit);
                    Ok(None)
                }
            },
            Ok(CandidateEvaluation::PlatformRestricted(status)) => {
                self.note_checked(
                    tag_info,
                    "platform-restricted (HTTP ".to_string().concat(
                        text::decimal_text(status as u64).as_str(),
                    ).concat("); requires macOS"),
                );
                if self.platform_restricted.is_none() {
                    self.platform_restricted = Some((tag_info.tag.clone(), status));
                }
                Ok(None)
            },
            Ok(CandidateEvaluation::CloudOnly) => {
                self.note_checked(tag_info, "cloud-only model; no local weights".to_string());
                if self.cloud_only.is_none() {
                    self.cloud_only = Some(tag_info.tag.clone());
                }
                Ok(None)
            },
        }
    }

    fn into_diagnostics(self) -> (r: ResolutionDiagnostics)
        ensures
            r@ == self@.diagnostics,
    {
        self.diagnostics
    }

    /// What is reported when no candidate fits.
    pub fn conclude(self, model: &str) -> (r: Result<ResolutionOutcome, ResolverError>)
        ensures
            match conclusion(model@, self@) {
                Ok(outcome) => r matches Ok(o) && o@ == outcome,
                Err(error) => r matches Err(e) && e@ == error,
            },
    {
        if let Some((variant, fit)) = self.smallest {
            return Ok(ResolutionOutcome { variant, fit, diagnostics: self.diagnostics });
        }
        if let Some((tag, status)) = self.platform_restricted {
            return Err(
                ResolverError::ManifestPlatformRestricted { model: model.to_string(), tag, status },
            );
        }
        if let Some(tag) = self.cloud_only {
            return Err(ResolverError::ManifestCloudOnly { model: model.to_string(), tag });
        }
        let attempts = manifest_failure_summary(&self.diagnostics);
        Err(ResolverError::NoUsableManifest { model: model.to_string(), attempts })
    }
}

fn push_attempts(lines: &mut Vec<String>, list: &Vec<CandidateTrace>)
    ensures
        text::texts(final(lines)@) == text::texts(old(lines)@) + attempt_lines(traces(list@)),
{
    let ghost before = lines@;
    for i in 0..list.len()
        invariant
            text::texts(lines@) =~= text::texts(before) + attempt_lines(traces(list@)).take(
                i as int,
            ),
    {
        let ghost so_far = lines@;
        let line = "- ".to_string().concat(list[i].full_ref.as_str()).concat(": ").concat(
            list[i].decision.as_str(),
        );
        lines.push(line);
        assert(text::texts(lines@) =~= text::texts(so_far).push(line@));
        assert(attempt_lines(traces(list@)).take(i + 1) =~= attempt_lines(traces(list@)).take(
            i as int,
        ).push(line@));
    }
    assert(attempt_lines(traces(list@)).take(list@.len() as int) =~= attempt_lines(traces(list@)));
}

/// All that was tried, a line for each candidate.
pub fn manifest_failure_summary(diagnostics: &ResolutionDiagnostics) -> (r: String)
    ensures
        r@ == failure_summary(diagnostics@),
{
    let mut lines: Vec<String> = Vec::new();
    push_attempts(&mut lines, &diagnostics.manifest_checked);
    push_attempts(&mut lines, &diagnostics.manifest_skipped_by_cap);
    assert(text::texts(lines@) =~= attempt_lines(diagnostics@.manifest_checked) + attempt_lines(
        diagnostics@.manifest_skipped_by_cap,
    ));
    if lines.len() == 0 {
        "- no manifest lookups were attempted".to_string()
    } else {
        text::join_texts(&lines, "\n")
    }
}

// ---- a whole resolution ----------------------------------------------------

/// How many manifests were looked up.
pub open spec fn lookups(walk: Walk) -> nat {
    match walk {
        Walk::Going(progress) => progress.lookups,
        Walk::Selected(_, n) => n,
        Walk::Failed(_, n) => n,
    }
}

/// The walk through all tags of a model.
pub open spec fn full_walk(
    model: Seq<char>,
    tags: Seq<TagInfo>,
    hw: HardwareProfile,
    opts: ResolveOpts,
    replies: Seq<Result<(u64, u64), ResolverError>>,
) -> Walk {
    let ranked = rank::ranked(tags);
    walk(
        model,
        visits(ranked, hw, opts),
        visits(ranked, hw, opts).len(),
        hw,
        opts,
        replies,
        at_start(ranked, hw, opts),
    )
}

/// The result for a model with the given tags. `replies` are the replies to the
/// manifest lookups, in order.
pub open spec fn outcome(
    model: Seq<char>,
    tags: Seq<TagInfo>,
    hw: HardwareProfile,
    opts: ResolveOpts,
    replies: Seq<Result<(u64, u64), ResolverError>>,
) -> Result<OutcomeView, ErrorView> {
    match full_walk(model, tags, hw, opts, replies) {
        Walk::Going(progress) => conclusion(model, progress),
        Walk::Selected(outcome, _) => Ok(outcome),
        Walk::Failed(e, _) => Err(e@),
    }
}

/// The replies in a run of manifest lookups.
pub open spec fn manifest_replies(asked: Seq<Lookup>) -> Seq<Result<(u64, u64), ResolverError>> {
    Seq::new(asked.len(), |i: int| asked[i]->Manifest_reply)
}

/// The lookups ask for the manifests of the first tags to visit, in order.
pub open spec fn asks_in_order(model: Seq<char>, visits: Seq<Visit>, asked: Seq<Lookup>) -> bool {
    &&& asked.len() <= visits.len()
    &&& forall|i: int|
        0 <= i < asked.len() ==> (#[trigger] asked[i] matches Lookup::Manifest { model: m, tag, .. }
            && m == model && tag == visits[i].tag.tag@)
}

/// The registry was asked for `asked`, and `r` is what follows from its replies:
/// first the tags of the model, then one manifest after the other, as long as
/// they are needed.
pub open spec fn is_resolution(
    model: Seq<char>,
    hw: HardwareProfile,
    opts: ResolveOpts,
    asked: Seq<Lookup>,
    r: Result<OutcomeView, ErrorView>,
) -> bool {
    &&& asked.len() >= 1
    &&& asked[0] matches Lookup::Tags { model: m, reply } && m == model && match reply {
        Err(e) => asked.len() == 1 && r == Err::<OutcomeView, _>(e@),
        Ok(tags) => {
            let replies = manifest_replies(asked.skip(1));
            &&& asks_in_order(model, visits(rank::ranked(tags@), hw, opts), asked.skip(1))
            &&& lookups(full_walk(model, tags@, hw, opts, replies)) == replies.len()
            &&& r == outcome(model, tags@, hw, opts, replies)
        },
    }
}

pub open spec fn result_view(r: Result<ResolutionOutcome, ResolverError>) -> Result<
    OutcomeView,
    ErrorView,
> {
    match r {
        Ok(outcome) => Ok(outcome@),
        Err(e) => Err(e@),
    }
}

/// The walk depends on no more replies than there were lookups.
proof fn lemma_walk_reads_its_replies(
    model: Seq<char>,
    visits: Seq<Visit>,
    n: nat,
    hw: HardwareProfile,
    opts: ResolveOpts,
    r1: Seq<Result<(u64, u64), ResolverError>>,
    r2: Seq<Result<(u64, u64), ResolverError>>,
    start: ProgressView,
)
    requires
        forall|i: int|
            0 <= i < lookups(walk(model, visits, n, hw, opts, r1, start)) ==> r1[i]
                == #[trigger] r2[i],
    ensures
        walk(model, visits, n, hw, opts, r1, start) == walk(
            model,
            visits,
            n,
            hw,
            opts,
            r2,
            start,
        ),
    decreases n,
{
    if n > 0 {
        lemma_walk_reads_its_replies(model, visits, (n - 1) as nat, hw, opts, r1, r2, start);
        match walk(model, visits, (n - 1) as nat, hw, opts, r1, start) {
            Walk::Going(progress) => {
                if !cap_reached(opts, progress.lookups) {
                    let k = progress.lookups as int;
                    assert(lookups(walk(model, visits, n, hw, opts, r1, start)) == k + 1);
                    assert(r1[k] == r2[k]);
                }
            },
            _ => {},
        }
    }
}

/// A walk that has ended stays as it is.
proof fn lemma_walk_stays_ended(
    model: Seq<char>,
    visits: Seq<Visit>,
    k: nat,
    n: nat,
    hw: HardwareProfile,
    opts: ResolveOpts,
    replies: Seq<Result<(u64, u64), ResolverError>>,
    start: ProgressView,
)
    requires
        k <= n,
        !(walk(model, visits, k, hw, opts, replies, start) is Going),
    ensures
        walk(model, visits, n, hw, opts, replies, start) == walk(
            model,
            visits,
            k,
            hw,
            opts,
            replies,
            start,
        ),
    decreases n,
{
    if k < n {
        lemma_walk_stays_ended(model, visits, k, (n - 1) as nat, hw, opts, replies, start);
    }
}

/// The plan splits the tags in two, each part in order.
proof fn lemma_plan(tags: Seq<TagInfo>, hw: HardwareProfile, opts: ResolveOpts)
    requires
        tags.len() <= usize::MAX,
    ensures
        hinted(tags, hw, opts, false).len() + hinted(tags, hw, opts, true).len() == tags.len(),
        forall|rejected: bool, i: int|
            0 <= i < hinted(tags, hw, opts, rejected).len() ==> (#[trigger] hinted(
                tags,
                hw,
                opts,
                rejected,
            )[i]) < tags.len(),
    decreases tags.len(),
{
    if tags.len() > 0 {
        lemma_plan(tags.drop_last(), hw, opts);
        assert forall|rejected: bool, i: int|
            0 <= i < hinted(tags, hw, opts, rejected).len() implies (#[trigger] hinted(
            tags,
            hw,
            opts,
            rejected,
        )[i]) < tags.len() by {
            let rest = hinted(tags.drop_last(), hw, opts, rejected);
            if i < rest.len() {
                assert(rest[i] < tags.len() - 1);
            }
        }
    }
}

/// Resolves a model with the tags and manifests of a registry, and says how the
/// result came about. The first candidate that fits is chosen; if none does, the
/// smallest that could be sized is reported.
pub fn resolve_with_registry_diagnostics<R: Registry>(
    registry: &mut R,
    model: &str,
    hw: &HardwareProfile,
    opts: &ResolveOpts,
) -> (r: Result<ResolutionOutcome, ResolverError>)
    ensures
        old(registry).asked().is_prefix_of(final(registry).asked()),
        is_resolution(
            model@,
            *hw,
            *opts,
            final(registry).asked().skip(old(registry).asked().len() as int),
            result_view(r),
        ),
{
    let ghost before = registry.asked();
    let ghost base = before.len() as int;
    let tags = match registry.list_tags(model) {
        Ok(tags) => tags,
        Err(e) => {
            assert(registry.asked().skip(base) =~= seq![
                Lookup::Tags { model: model@, reply: Err(e) },
            ]);
            return Err(e);
        },
    };
    let ghost listed = tags;
    let candidates = rank::rank_candidates(tags);
    assert(candidates.len() <= usize::MAX);
    proof {
        lemma_plan(candidates@, *hw, *opts);
    }
    let (plan, started) = Progress::start(&candidates, hw, opts);
    let mut progress = started;
    let ghost visits = visits(candidates@, *hw, *opts);
    let ghost start = at_start(candidates@, *hw, *opts);
    let ghost mut rest: Seq<Lookup> = Seq::empty();
    let primary: usize = plan.primary.len();
    let count: usize = primary + plan.approx_rejected.len();
    assert(registry.asked() =~= before.push(Lookup::Tags { model: model@, reply: Ok(listed) })
        + rest);
    for i in 0..count
        invariant
            base == before.len(),
            primary == plan.primary@.len(),
            count == primary + plan.approx_rejected@.len(),
            count == candidates@.len(),
            candidates@ == rank::ranked(listed@),
            plan.primary@ == hinted(candidates@, *hw, *opts, false),
            plan.approx_rejected@ == hinted(candidates@, *hw, *opts, true),
            forall|rejected: bool, j: int|
                0 <= j < hinted(candidates@, *hw, *opts, rejected).len() ==> (#[trigger] hinted(
                    candidates@,
                    *hw,
                    *opts,
                    rejected,
                )[j]) < candidates@.len(),
            visits == self::visits(candidates@, *hw, *opts),
            start == at_start(candidates@, *hw, *opts),
            before == old(registry).asked(),
            registry.asked() == before.push(Lookup::Tags { model: model@, reply: Ok(listed) })
                + rest,
            asks_in_order(model@, visits, rest),
            rest.len() <= i,
            rest.len() < i ==> cap_reached(*opts, rest.len()),
            progress@.lookups == rest.len(),
            walk(model@, visits, i as nat, *hw, *opts, manifest_replies(rest), start)
                == Walk::Going(progress@),
    {
        let deferred = i >= primary;
        let index: usize = if deferred {
            plan.approx_rejected[i - primary]
        } else {
            plan.primary[i]
        };
        assert(index == hinted(candidates@, *hw, *opts, deferred)[if deferred {
            i - primary
        } else {
            i as int
        }]);
        let tag_info = &candidates[index];
        assert(visits[i as int] == (Visit { tag: *tag_info, deferred }));
        if progress.is_capped(opts) {
            progress.skip(tag_info);
        } else {
            let reply = registry.get_manifest_size(model, tag_info.tag.as_str());
            let ghost earlier = rest;
            let ghost asked = Lookup::Manifest { model: model@, tag: tag_info.tag@, reply };
            proof {
                rest = rest.push(asked);
                assert(manifest_replies(rest) =~= manifest_replies(earlier).push(reply));
                lemma_walk_reads_its_replies(
                    model@,
                    visits,
                    i as nat,
                    *hw,
                    *opts,
                    manifest_replies(earlier),
                    manifest_replies(rest),
                    start,
                );
                assert(registry.asked() =~= before.push(
                    Lookup::Tags { model: model@, reply: Ok(listed) },
                ) + rest);
                assert(registry.asked().skip(base).skip(1) =~= rest);
                assert(asks_in_order(model@, visits, rest));
                let next = walk(
                    model@,
                    visits,
                    (i + 1) as nat,
                    *hw,
                    *opts,
                    manifest_replies(rest),
                    start,
                );
                assert(next == after_reply(
                    model@,
                    visits[i as int],
                    *hw,
                    *opts,
                    progress@,
                    reply,
                ));
                if !(next is Going) {
                    lemma_walk_stays_ended(
                        model@,
                        visits,
                        (i + 1) as nat,
                        visits.len(),
                        *hw,
                        *opts,
                        manifest_replies(rest),
                        start,
                    );
                }
            }
            match progress.record(model, tag_info, deferred, hw, opts, reply) {
                Ok(Some((variant, fit))) => {
                    return Ok(
                        ResolutionOutcome { variant, fit, diagnostics: progress.into_diagnostics() },
                    );
                },
                Ok(None) => {},
                Err(e) => {
                    return Err(e);
                },
            }
        }
    }
    assert(registry.asked().skip(base).skip(1) =~= rest);
    progress.conclude(model)
}

/// Resolves a model with the tags and manifests of a registry.
pub fn resolve_with_registry<R: Registry>(
    registry: &mut R,
    model: &str,
    hw: &HardwareProfile,
    opts: &ResolveOpts,
) -> (r: Result<(ModelVariant, FitResult), ResolverError>)
    ensures
        old(registry).asked().is_prefix_of(final(registry).asked()),
        exists|outcome: Result<OutcomeView, ErrorView>| #[trigger]
            is_resolution(
                model@,
                *hw,
                *opts,
                final(registry).asked().skip(old(registry).asked().len() as int),
                outcome,
            ) && match outcome {
                Ok(o) => r matches Ok((variant, fit)) && variant@ == o.variant && fit == o.fit,
                Err(e) => r matches Err(error) && error@ == e,
            },
{
    match resolve_with_registry_diagnostics(registry, model, hw, opts) {
        Ok(outcome) => {
            assert(result_view(Ok(outcome)) == Ok::<_, ErrorView>(outcome@));
            Ok((outcome.variant, outcome.fit))
        },
        Err(e) => {
            assert(result_view(Err(e)) == Err::<OutcomeView, _>(e@));
            Err(e)
        },
    }
}

// ---- laws ------------------------------------------------------------------

/// The manifest shows that the variant fits.
pub open spec fn shows_fit(
    reply: Result<(u64, u64), ResolverError>,
    hw: HardwareProfile,
    opts: ResolveOpts,
) -> bool {
    reply matches Ok(sizes) && sized_verdict(sizes, hw, opts).is_fit()
}

/// The lookup failed in a way that says nothing of the candidate.
pub open spec fn is_fatal(reply: Result<(u64, u64), ResolverError>) -> bool {
    reply matches Err(e) && !(e is ManifestMissing) && !(e is ManifestCloudOnly) && !(
    e is ManifestPlatformRestricted)
}

/// After the reply the search goes on.
pub open spec fn leads_on(
    reply: Result<(u64, u64), ResolverError>,
    hw: HardwareProfile,
    opts: ResolveOpts,
) -> bool {
    !shows_fit(reply, hw, opts) && !is_fatal(reply)
}

/// How many of `n` candidates may be looked up.
pub open spec fn within_cap(opts: ResolveOpts, n: nat) -> nat {
    match opts.max_manifest_lookups {
        Some(max) if max < n => max as nat,
        _ => n,
    }
}

/// The first candidates were looked up and the others skipped, as the cap wants.
pub open spec fn notes_candidates(
    visits: Seq<Visit>,
    n: nat,
    opts: ResolveOpts,
    p: ProgressView,
) -> bool {
    &&& p.lookups == within_cap(opts, n)
    &&& p.diagnostics.manifest_checked.len() == p.lookups
    &&& p.diagnostics.manifest_skipped_by_cap.len() == n - p.lookups
    &&& forall|i: int|
        0 <= i < p.lookups ==> (#[trigger] p.diagnostics.manifest_checked[i]).full_ref
            == visits[i].tag.full_ref@
    &&& forall|i: int|
        0 <= i < n - p.lookups ==> (#[trigger] p.diagnostics.manifest_skipped_by_cap[i]).full_ref
            == visits[p.lookups + i].tag.full_ref@
}

/// The smallest variant that was sized is noted.
pub open spec fn notes_smallest(
    model: Seq<char>,
    visits: Seq<Visit>,
    hw: HardwareProfile,
    opts: ResolveOpts,
    replies: Seq<Result<(u64, u64), ResolverError>>,
    p: ProgressView,
) -> bool {
    match p.smallest {
        Some((variant, fit)) => exists|i: int|
            0 <= i < p.lookups && #[trigger] is_smallest(replies, p.lookups, i) && variant
                == variant_of(model, visits[i].tag, replies[i]->Ok_0, opts) && fit == sized_verdict(
                replies[i]->Ok_0,
                hw,
                opts,
            ),
        None => forall|i: int| 0 <= i < p.lookups ==> !(#[trigger] replies[i] is Ok),
    }
}

/// The first candidate for macOS only is noted.
pub open spec fn notes_restricted(
    visits: Seq<Visit>,
    replies: Seq<Result<(u64, u64), ResolverError>>,
    p: ProgressView,
) -> bool {
    match p.platform_restricted {
        Some((tag, status)) => exists|i: int|
            0 <= i < p.lookups && #[trigger] is_first_restricted(replies, i, status) && tag
                == visits[i].tag.tag@,
        None => forall|i: int| 0 <= i < p.lookups ==> !is_restricted(#[trigger] replies[i]),
    }
}

/// The first candidate without local weights is noted.
pub open spec fn notes_cloud_only(
    visits: Seq<Visit>,
    replies: Seq<Result<(u64, u64), ResolverError>>,
    p: ProgressView,
) -> bool {
    match p.cloud_only {
        Some(tag) => exists|i: int|
            0 <= i < p.lookups && #[trigger] is_first_cloud_only(replies, i) && tag
                == visits[i].tag.tag@,
        None => forall|i: int| 0 <= i < p.lookups ==> !is_cloud_only(#[trigger] replies[i]),
    }
}

pub open spec fn is_restricted(reply: Result<(u64, u64), ResolverError>) -> bool {
    reply matches Err(ResolverError::ManifestPlatformRestricted { .. })
}

pub open spec fn is_cloud_only(reply: Result<(u64, u64), ResolverError>) -> bool {
    reply matches Err(ResolverError::ManifestCloudOnly { .. })
}

pub open spec fn any_restricted(
    replies: Seq<Result<(u64, u64), ResolverError>>,
    n: nat,
) -> bool {
    exists|i: int| 0 <= i < n && is_restricted(#[trigger] replies[i])
}

pub open spec fn any_cloud_only(
    replies: Seq<Result<(u64, u64), ResolverError>>,
    n: nat,
) -> bool {
    exists|i: int| 0 <= i < n && is_cloud_only(#[trigger] replies[i])
}

/// Reply `i` holds the least weights among the first `n`, and is the first that
/// does.
pub open spec fn is_smallest(
    replies: Seq<Result<(u64, u64), ResolverError>>,
    n: nat,
    i: int,
) -> bool {
    &&& replies[i] is Ok
    &&& forall|j: int|
        0 <= j < n && (#[trigger] replies[j] is Ok) ==> replies[i]->Ok_0.0 <= replies[j]->Ok_0.0
            && (j < i ==> replies[i]->Ok_0.0 < replies[j]->Ok_0.0)
}

pub open spec fn is_first_restricted(
    replies: Seq<Result<(u64, u64), ResolverError>>,
    i: int,
    status: u16,
) -> bool {
    &&& replies[i] matches Err(ResolverError::ManifestPlatformRestricted { status: s, .. }) && s
        == status
    &&& forall|j: int| 0 <= j < i ==> !is_restricted(#[trigger] replies[j])
}

pub open spec fn is_first_cloud_only(
    replies: Seq<Result<(u64, u64), ResolverError>>,
    i: int,
) -> bool {
    &&& is_cloud_only(replies[i])
    &&& forall|j: int| 0 <= j < i ==> !is_cloud_only(#[trigger] replies[j])
}

/// As long as every reply leads on, the walk goes on, and it has noted what the
/// replies say.
proof fn lemma_walk_goes_on(
    model: Seq<char>,
    visits: Seq<Visit>,
    n: nat,
    hw: HardwareProfile,
    opts: ResolveOpts,
    replies: Seq<Result<(u64, u64), ResolverError>>,
    start: ProgressView,
)
    requires
        start.lookups == 0,
        start.diagnostics.manifest_checked.len() == 0,
        start.diagnostics.manifest_skipped_by_cap.len() == 0,
        start.smallest is None,
        start.platform_restricted is None,
        start.cloud_only is None,
        forall|i: int|
            0 <= i < within_cap(opts, n) ==> leads_on(#[trigger] replies[i], hw, opts),
    ensures
        walk(model, visits, n, hw, opts, replies, start) matches Walk::Going(p) && notes_candidates(
            visits,
            n,
            opts,
            p,
        ) && notes_smallest(model, visits, hw, opts, replies, p) && notes_restricted(
            visits,
            replies,
            p,
        ) && notes_cloud_only(visits, replies, p),
    decreases n,
{
    if n > 0 {
        let m = (n - 1) as nat;
        lemma_walk_goes_on(model, visits, m, hw, opts, replies, start);
        let p = walk(model, visits, m, hw, opts, replies, start)->Going_0;
        if !cap_reached(opts, p.lookups) {
            let k = p.lookups as int;
            assert(leads_on(replies[k], hw, opts));
            let q = walk(model, visits, n, hw, opts, replies, start)->Going_0;
            assert(q.lookups == k + 1);
            assert(notes_candidates(visits, n, opts, q));
            assert(notes_smallest(model, visits, hw, opts, replies, q)) by {
                if p.smallest is Some {
                    let i = choose|i: int|
                        0 <= i < p.lookups && #[trigger] is_smallest(replies, p.lookups, i)
                            && p.smallest->Some_0.0 == variant_of(
                            model,
                            visits[i].tag,
                            replies[i]->Ok_0,
                            opts,
                        ) && p.smallest->Some_0.1 == sized_verdict(replies[i]->Ok_0, hw, opts);
                    assert(is_smallest(replies, q.lookups, i) || is_smallest(
                        replies,
                        q.lookups,
                        k,
                    ));
                } else if replies[k] is Ok {
                    assert(is_smallest(replies, q.lookups, k));
                }
            }
            assert(notes_restricted(visits, replies, q)) by {
                if p.platform_restricted is None && is_restricted(replies[k]) {
                    assert(is_first_restricted(replies, k, q.platform_restricted->Some_0.1));
                }
            }
            assert(notes_cloud_only(visits, replies, q)) by {
                if p.cloud_only is None && is_cloud_only(replies[k]) {
                    assert(is_first_cloud_only(replies, k));
                }
            }
        }
    }
}

/// The walk ends at candidate `k` if its reply is the first that does not lead on.
proof fn lemma_walk_ends(
    model: Seq<char>,
    visits: Seq<Visit>,
    k: nat,
    hw: HardwareProfile,
    opts: ResolveOpts,
    replies: Seq<Result<(u64, u64), ResolverError>>,
    start: ProgressView,
)
    requires
        start.lookups == 0,
        start.diagnostics.manifest_checked.len() == 0,
        start.diagnostics.manifest_skipped_by_cap.len() == 0,
        start.smallest is None,
        start.platform_restricted is None,
        start.cloud_only is None,
        k < visits.len(),
        !cap_reached(opts, k),
        forall|i: int| 0 <= i < k ==> leads_on(#[trigger] replies[i], hw, opts),
        !leads_on(replies[k as int], hw, opts),
    ensures
        match replies[k as int] {
            Ok(sizes) => walk(
                model,
                visits,
                visits.len(),
                hw,
                opts,
                replies,
                start,
            ) matches Walk::Selected(o, n) && n == k + 1 && o.variant == variant_of(
                model,
                visits[k as int].tag,
                sizes,
                opts,
            ) && o.fit == sized_verdict(sizes, hw, opts),
            Err(e) => walk(model, visits, visits.len(), hw, opts, replies, start) == Walk::Failed(
                e,
                k + 1,
            ),
        },
{
    lemma_walk_goes_on(model, visits, k, hw, opts, replies, start);
    assert(within_cap(opts, k) == k);
    lemma_walk_stays_ended(model, visits, k + 1, visits.len(), hw, opts, replies, start);
}

/// The first candidate that does not lead on within the first `n`, or `n`.
spec fn first_end(
    replies: Seq<Result<(u64, u64), ResolverError>>,
    n: nat,
    hw: HardwareProfile,
    opts: ResolveOpts,
) -> nat
    decreases n,
{
    if n == 0 {
        0
    } else {
        let k = first_end(replies, (n - 1) as nat, hw, opts);
        if k < n - 1 || !leads_on(replies[n - 1], hw, opts) {
            k
        } else {
            n
        }
    }
}

proof fn lemma_first_end(
    replies: Seq<Result<(u64, u64), ResolverError>>,
    n: nat,
    hw: HardwareProfile,
    opts: ResolveOpts,
)
    ensures
        ({
            let k = first_end(replies, n, hw, opts);
            &&& k <= n
            &&& forall|i: int| 0 <= i < k ==> leads_on(#[trigger] replies[i], hw, opts)
            &&& k < n ==> !leads_on(replies[k as int], hw, opts)
        }),
    decreases n,
{
    if n > 0 {
        lemma_first_end(replies, (n - 1) as nat, hw, opts);
    }
}

/// The first candidate that fits is chosen: if the replies before the one for
/// candidate `k` neither show a fit nor fail, and that one shows a fit, then
/// exactly that variant is returned, and nothing further is looked up.
pub proof fn law_first_fit_is_chosen(
    model: Seq<char>,
    tags: Seq<TagInfo>,
    hw: HardwareProfile,
    opts: ResolveOpts,
    replies: Seq<Result<(u64, u64), ResolverError>>,
    k: nat,
)
    requires
        k < within_cap(opts, visits(rank::ranked(tags), hw, opts).len()),
        forall|i: int| 0 <= i < k ==> leads_on(#[trigger] replies[i], hw, opts),
        shows_fit(replies[k as int], hw, opts),
    ensures
        outcome(model, tags, hw, opts, replies) matches Ok(o) && o.fit.is_fit() && o.variant
            == variant_of(
            model,
            visits(rank::ranked(tags), hw, opts)[k as int].tag,
            replies[k as int]->Ok_0,
            opts,
        ),
        lookups(full_walk(model, tags, hw, opts, replies)) == k + 1,
{
    let ranked = rank::ranked(tags);
    lemma_walk_ends(
        model,
        visits(ranked, hw, opts),
        k,
        hw,
        opts,
        replies,
        at_start(ranked, hw, opts),
    );
}

/// A variant is returned as fitting only if its own manifest showed that, after
/// no earlier reply did.
pub proof fn law_choice_was_shown_to_fit(
    model: Seq<char>,
    tags: Seq<TagInfo>,
    hw: HardwareProfile,
    opts: ResolveOpts,
    replies: Seq<Result<(u64, u64), ResolverError>>,
) -> (k: int)
    requires
        outcome(model, tags, hw, opts, replies) matches Ok(o) && o.fit.is_fit(),
    ensures
        0 <= k < within_cap(opts, visits(rank::ranked(tags), hw, opts).len()),
        shows_fit(replies[k], hw, opts),
        forall|i: int| 0 <= i < k ==> leads_on(#[trigger] replies[i], hw, opts),
        outcome(model, tags, hw, opts, replies)->Ok_0.variant == variant_of(
            model,
            visits(rank::ranked(tags), hw, opts)[k].tag,
            replies[k]->Ok_0,
            opts,
        ),
{
    let vs = visits(rank::ranked(tags), hw, opts);
    let start = at_start(rank::ranked(tags), hw, opts);
    let n = within_cap(opts, vs.len());
    let k = first_end(replies, n, hw, opts);
    lemma_first_end(replies, n, hw, opts);
    if k < n {
        lemma_walk_ends(model, vs, k, hw, opts, replies, start);
    } else {
        lemma_walk_goes_on(model, vs, vs.len(), hw, opts, replies, start);
        let p = walk(model, vs, vs.len(), hw, opts, replies, start)->Going_0;
        let i = choose|i: int|
            0 <= i < p.lookups && #[trigger] is_smallest(replies, p.lookups, i)
                && p.smallest->Some_0.0 == variant_of(model, vs[i].tag, replies[i]->Ok_0, opts)
                && p.smallest->Some_0.1 == sized_verdict(replies[i]->Ok_0, hw, opts);
        assert(leads_on(replies[i], hw, opts));
    }
    k as int
}

/// A lookup that fails for another reason than that the candidate cannot be had
/// ends the resolution with that error, and nothing further is looked up.
pub proof fn law_failed_lookups_end_the_search(
    model: Seq<char>,
    tags: Seq<TagInfo>,
    hw: HardwareProfile,
    opts: ResolveOpts,
    replies: Seq<Result<(u64, u64), ResolverError>>,
    k: nat,
)
    requires
        k < within_cap(opts, visits(rank::ranked(tags), hw, opts).len()),
        forall|i: int| 0 <= i < k ==> leads_on(#[trigger] replies[i], hw, opts),
        is_fatal(replies[k as int]),
    ensures
        outcome(model, tags, hw, opts, replies) == Err::<OutcomeView, _>(
            replies[k as int]->Err_0@,
        ),
        lookups(full_walk(model, tags, hw, opts, replies)) == k + 1,
{
    let ranked = rank::ranked(tags);
    lemma_walk_ends(
        model,
        visits(ranked, hw, opts),
        k,
        hw,
        opts,
        replies,
        at_start(ranked, hw, opts),
    );
}

/// Where nothing that may be looked up fits but some variant could be sized, the
/// smallest of those is reported, and of equals the first.
pub proof fn law_smallest_is_reported(
    model: Seq<char>,
    tags: Seq<TagInfo>,
    hw: HardwareProfile,
    opts: ResolveOpts,
    replies: Seq<Result<(u64, u64), ResolverError>>,
    k: int,
) -> (i: int)
    requires
        forall|j: int|
            0 <= j < within_cap(opts, visits(rank::ranked(tags), hw, opts).len()) ==> leads_on(
                #[trigger] replies[j],
                hw,
                opts,
            ),
        0 <= k < within_cap(opts, visits(rank::ranked(tags), hw, opts).len()),
        replies[k] is Ok,
    ensures
        0 <= i < within_cap(opts, visits(rank::ranked(tags), hw, opts).len()),
        is_smallest(
            replies,
            within_cap(opts, visits(rank::ranked(tags), hw, opts).len()),
            i,
        ),
        outcome(model, tags, hw, opts, replies) matches Ok(o) && o.variant == variant_of(
            model,
            visits(rank::ranked(tags), hw, opts)[i].tag,
            replies[i]->Ok_0,
            opts,
        ) && o.fit == sized_verdict(replies[i]->Ok_0, hw, opts) && !o.fit.is_fit(),
{
    let vs = visits(rank::ranked(tags), hw, opts);
    let start = at_start(rank::ranked(tags), hw, opts);
    lemma_walk_goes_on(model, vs, vs.len(), hw, opts, replies, start);
    let p = walk(model, vs, vs.len(), hw, opts, replies, start)->Going_0;
    assert(p.smallest is Some);
    let i = choose|i: int|
        0 <= i < p.lookups && #[trigger] is_smallest(replies, p.lookups, i)
            && p.smallest->Some_0.0 == variant_of(model, vs[i].tag, replies[i]->Ok_0, opts)
            && p.smallest->Some_0.1 == sized_verdict(replies[i]->Ok_0, hw, opts);
    assert(leads_on(replies[i], hw, opts));
    i
}

/// Where no variant could be sized, the error names the first tag that is for
/// macOS only if there is one, else the first without local weights, else all
/// that was tried.
pub proof fn law_why_nothing_is_usable(
    model: Seq<char>,
    tags: Seq<TagInfo>,
    hw: HardwareProfile,
    opts: ResolveOpts,
    replies: Seq<Result<(u64, u64), ResolverError>>,
)
    requires
        forall|j: int|
            0 <= j < within_cap(opts, visits(rank::ranked(tags), hw, opts).len())
                ==> #[trigger] replies[j] is Err && leads_on(replies[j], hw, opts),
    ensures
        ({
            let vs = visits(rank::ranked(tags), hw, opts);
            let n = within_cap(opts, vs.len());
            let r = outcome(model, tags, hw, opts, replies);
            if any_restricted(replies, n) {
                exists|i: int, status: u16|
                    0 <= i < n && #[trigger] is_first_restricted(replies, i, status) && r == Err::<
                        OutcomeView,
                        _,
                    >(
                        ErrorView::ManifestPlatformRestricted {
                            model,
                            tag: vs[i].tag.tag@,
                            status,
                        },
                    )
            } else if any_cloud_only(replies, n) {
                exists|i: int|
                    0 <= i < n && #[trigger] is_first_cloud_only(replies, i) && r == Err::<
                        OutcomeView,
                        _,
                    >(ErrorView::ManifestCloudOnly { model, tag: vs[i].tag.tag@ })
            } else {
                r matches Err(ErrorView::NoUsableManifest { model: m, attempts }) && m == model
                    && attempts == failure_summary(
                    full_walk(model, tags, hw, opts, replies)->Going_0.diagnostics,
                )
            }
        }),
{
    let vs = visits(rank::ranked(tags), hw, opts);
    let start = at_start(rank::ranked(tags), hw, opts);
    lemma_walk_goes_on(model, vs, vs.len(), hw, opts, replies, start);
    let p = walk(model, vs, vs.len(), hw, opts, replies, start)->Going_0;
    if p.platform_restricted is Some {
        let (tag, status) = p.platform_restricted->Some_0;
        let i = choose|i: int|
            0 <= i < p.lookups && #[trigger] is_first_restricted(replies, i, status) && tag
                == vs[i].tag.tag@;
        assert(is_restricted(replies[i]));
        assert(is_first_restricted(replies, i, status));
    } else if p.cloud_only is Some {
        let i = choose|i: int|
            0 <= i < p.lookups && #[trigger] is_first_cloud_only(replies, i)
                && p.cloud_only->Some_0 == vs[i].tag.tag@;
        assert(is_cloud_only(replies[i]));
    }
}

/// Never more manifests are looked up than the cap allows, nor more than there
/// are tags.
pub proof fn law_lookups_stay_within_the_cap(
    model: Seq<char>,
    tags: Seq<TagInfo>,
    hw: HardwareProfile,
    opts: ResolveOpts,
    replies: Seq<Result<(u64, u64), ResolverError>>,
)
    ensures
        lookups(full_walk(model, tags, hw, opts, replies)) <= within_cap(
            opts,
            visits(rank::ranked(tags), hw, opts).len(),
        ),
{
    let ranked = rank::ranked(tags);
    let vs = visits(ranked, hw, opts);
    let start = at_start(ranked, hw, opts);
    let n = within_cap(opts, vs.len());
    let k = first_end(replies, n, hw, opts);
    lemma_first_end(replies, n, hw, opts);
    if k < n {
        lemma_walk_ends(model, vs, k, hw, opts, replies, start);
    } else {
        lemma_walk_goes_on(model, vs, vs.len(), hw, opts, replies, start);
    }
}

/// Every tag is either looked up or noted as skipped, in evaluation order, as
/// long as nothing ends the search.
pub proof fn law_every_candidate_is_accounted_for(
    model: Seq<char>,
    tags: Seq<TagInfo>,
    hw: HardwareProfile,
    opts: ResolveOpts,
    replies: Seq<Result<(u64, u64), ResolverError>>,
)
    requires
        full_walk(model, tags, hw, opts, replies) is Going,
    ensures
        notes_candidates(
            visits(rank::ranked(tags), hw, opts),
            visits(rank::ranked(tags), hw, opts).len(),
            opts,
            full_walk(model, tags, hw, opts, replies)->Going_0,
        ),
{
    let ranked = rank::ranked(tags);
    let vs = visits(ranked, hw, opts);
    let start = at_start(ranked, hw, opts);
    let n = within_cap(opts, vs.len());
    let k = first_end(replies, n, hw, opts);
    lemma_first_end(replies, n, hw, opts);
    if k < n {
        lemma_walk_ends(model, vs, k, hw, opts, replies, start);
    }
    lemma_walk_goes_on(model, vs, vs.len(), hw, opts, replies, start);
}

/// Where position `i` stands in the plan.
proof fn lemma_plan_holds(
    tags: Seq<TagInfo>,
    hw: HardwareProfile,
    opts: ResolveOpts,
    i: int,
) -> (at: int)
    requires
        tags.len() <= usize::MAX,
        0 <= i < tags.len(),
    ensures
        ({
            let part = hinted(tags, hw, opts, hint_rejects(tags[i], hw, opts));
            0 <= at < part.len() && part[at] == i
        }),
    decreases tags.len(),
{
    let rejected = hint_rejects(tags[i], hw, opts);
    if i == tags.len() - 1 {
        hinted(tags, hw, opts, rejected).len() - 1
    } else {
        assert(tags.drop_last()[i] == tags[i]);
        lemma_plan_holds(tags.drop_last(), hw, opts, i)
    }
}

/// The size hint of the tag page decides only when a tag is looked up, never
/// whether: every tag has its place among those to visit, and there are as many
/// places as tags.
pub proof fn law_size_hints_hide_no_tag(
    tags: Seq<TagInfo>,
    hw: HardwareProfile,
    opts: ResolveOpts,
    i: int,
) -> (at: int)
    requires
        tags.len() <= usize::MAX,
        0 <= i < tags.len(),
    ensures
        visits(tags, hw, opts).len() == tags.len(),
        0 <= at < tags.len(),
        visits(tags, hw, opts)[at] == (Visit {
            tag: tags[i],
            deferred: hint_rejects(tags[i], hw, opts),
        }),
{
    lemma_plan(tags, hw, opts);
    let at = lemma_plan_holds(tags, hw, opts, i);
    if hint_rejects(tags[i], hw, opts) {
        hinted(tags, hw, opts, false).len() + at
    } else {
        at
    }
}

/// Where no manifest is usable, the error tells of every candidate, looked up or
/// skipped, what became of it.
pub proof fn law_failure_summary_names_every_candidate(d: DiagnosticsView, t: TraceView)
    requires
        d.manifest_checked.contains(t) || d.manifest_skipped_by_cap.contains(t),
    ensures
        text::contains(failure_summary(d), "- "@ + t.full_ref + ": "@ + t.decision),
{
    let checked = attempt_lines(d.manifest_checked);
    let skipped = attempt_lines(d.manifest_skipped_by_cap);
    let lines = checked + skipped;
    let i = if d.manifest_checked.contains(t) {
        choose|i: int| 0 <= i < d.manifest_checked.len() && d.manifest_checked[i] == t
    } else {
        checked.len() + choose|i: int|
            0 <= i < d.manifest_skipped_by_cap.len() && d.manifest_skipped_by_cap[i] == t
    };
    assert(lines[i] == "- "@ + t.full_ref + ": "@ + t.decision);
    text::lemma_join_holds_parts(lines, "\n"@, i);
}

proof fn lemma_hinted_below(
    tags: Seq<TagInfo>,
    hw: HardwareProfile,
    opts: ResolveOpts,
    rejected: bool,
    i: int,
)
    requires
        tags.len() <= usize::MAX,
        0 <= i < hinted(tags, hw, opts, rejected).len(),
    ensures
        hinted(tags, hw, opts, rejected)[i] < tags.len(),
        hint_rejects(tags[hinted(tags, hw, opts, rejected)[i] as int], hw, opts) == rejected,
    decreases tags.len(),
{
    let rest = hinted(tags.drop_last(), hw, opts, rejected);
    if i < rest.len() {
        lemma_hinted_below(tags.drop_last(), hw, opts, rejected, i);
        assert(tags.drop_last()[rest[i] as int] == tags[rest[i] as int]);
    }
}

/// Tags that the size hint puts behind the others are looked up in ranked order,
/// and so are the others; and the hint puts exactly those behind that it rejects.
pub proof fn law_both_parts_keep_ranked_order(
    tags: Seq<TagInfo>,
    hw: HardwareProfile,
    opts: ResolveOpts,
    rejected: bool,
    i: int,
    j: int,
)
    requires
        tags.len() <= usize::MAX,
        0 <= i < j < hinted(tags, hw, opts, rejected).len(),
    ensures
        hinted(tags, hw, opts, rejected)[i] < hinted(tags, hw, opts, rejected)[j],
        hint_rejects(tags[hinted(tags, hw, opts, rejected)[i] as int], hw, opts) == rejected,
    decreases tags.len(),
{
    let rest = hinted(tags.drop_last(), hw, opts, rejected);
    lemma_hinted_below(tags, hw, opts, rejected, i);
    if j < rest.len() {
        law_both_parts_keep_ranked_order(tags.drop_last(), hw, opts, rejected, i, j);
    } else {
        lemma_hinted_below(tags.drop_last(), hw, opts, rejected, i);
    }
}

// ---- the order of the tag list ---------------------------------------------

/// The same reply, text for text.
pub open spec fn replies_alike(
    a: Result<(u64, u64), ResolverError>,
    b: Result<(u64, u64), ResolverError>,
) -> bool {
    match (a, b) {
        (Ok(x), Ok(y)) => x == y,
        (Err(e), Err(f)) => e@ == f@,
        _ => false,
    }
}

/// The same manifest lookup with the same reply, text for text.
pub open spec fn lookups_alike(a: Lookup, b: Lookup) -> bool {
    &&& a is Manifest
    &&& b is Manifest
    &&& a->Manifest_model == b->Manifest_model
    &&& a->Manifest_tag == b->Manifest_tag
    &&& replies_alike(a->Manifest_reply, b->Manifest_reply)
}

/// Wherever the same manifest was looked up, the replies are the same.
pub open spec fn answers_agree(a: Seq<Lookup>, b: Seq<Lookup>) -> bool {
    forall|i: int, j: int|
        #![trigger a[i], b[j]]
        0 <= i < a.len() && 0 <= j < b.len() && a[i] is Manifest && b[j] is Manifest
            && a[i]->Manifest_model == b[j]->Manifest_model && a[i]->Manifest_tag
            == b[j]->Manifest_tag ==> replies_alike(a[i]->Manifest_reply, b[j]->Manifest_reply)
}

spec fn walks_alike(a: Walk, b: Walk) -> bool {
    match (a, b) {
        (Walk::Going(p), Walk::Going(q)) => p == q,
        (Walk::Selected(o, m), Walk::Selected(p, n)) => o == p && m == n,
        (Walk::Failed(e, m), Walk::Failed(f, n)) => e@ == f@ && m == n,
        _ => false,
    }
}

spec fn visits_alike(a: Seq<Visit>, b: Seq<Visit>) -> bool {
    &&& a.len() == b.len()
    &&& forall|i: int|
        0 <= i < a.len() ==> (#[trigger] a[i]).tag.is_like(b[i].tag) && a[i].deferred
            == b[i].deferred
}

proof fn lemma_walk_alike(
    model: Seq<char>,
    v1: Seq<Visit>,
    v2: Seq<Visit>,
    n: nat,
    hw: HardwareProfile,
    opts: ResolveOpts,
    r1: Seq<Result<(u64, u64), ResolverError>>,
    r2: Seq<Result<(u64, u64), ResolverError>>,
    start: ProgressView,
)
    requires
        n <= v1.len(),
        visits_alike(v1, v2),
        forall|i: int|
            0 <= i < lookups(walk(model, v1, n, hw, opts, r1, start)) ==> replies_alike(
                #[trigger] r1[i],
                r2[i],
            ),
    ensures
        walks_alike(
            walk(model, v1, n, hw, opts, r1, start),
            walk(model, v2, n, hw, opts, r2, start),
        ),
    decreases n,
{
    if n > 0 {
        let m = (n - 1) as nat;
        lemma_walk_alike(model, v1, v2, m, hw, opts, r1, r2, start);
        let visit = v1[n - 1];
        assert(visit.tag.is_like(v2[n - 1].tag));
        match walk(model, v1, m, hw, opts, r1, start) {
            Walk::Going(progress) => {
                if !cap_reached(opts, progress.lookups) {
                    let k = progress.lookups as int;
                    assert(lookups(walk(model, v1, n, hw, opts, r1, start)) == k + 1);
                    assert(replies_alike(r1[k], r2[k]));
                }
            },
            _ => {},
        }
    }
}

proof fn lemma_plans_alike(
    a: Seq<TagInfo>,
    b: Seq<TagInfo>,
    hw: HardwareProfile,
    opts: ResolveOpts,
    rejected: bool,
)
    requires
        a.len() == b.len(),
        forall|i: int| 0 <= i < a.len() ==> (#[trigger] a[i]).is_like(b[i]),
    ensures
        hinted(a, hw, opts, rejected) == hinted(b, hw, opts, rejected),
    decreases a.len(),
{
    if a.len() > 0 {
        lemma_plans_alike(a.drop_last(), b.drop_last(), hw, opts, rejected);
        assert(a[a.len() - 1].is_like(b[a.len() - 1]));
    }
}

proof fn lemma_visits_alike(
    a: Seq<TagInfo>,
    b: Seq<TagInfo>,
    hw: HardwareProfile,
    opts: ResolveOpts,
)
    requires
        a.len() == b.len() <= usize::MAX,
        forall|i: int| 0 <= i < a.len() ==> (#[trigger] a[i]).is_like(b[i]),
    ensures
        visits_alike(visits(a, hw, opts), visits(b, hw, opts)),
        at_start(a, hw, opts) == at_start(b, hw, opts),
{
    lemma_plan(a, hw, opts);
    lemma_plans_alike(a, b, hw, opts, false);
    lemma_plans_alike(a, b, hw, opts, true);
    let first = hinted(a, hw, opts, false);
    let then = hinted(a, hw, opts, true);
    let va = visits(a, hw, opts);
    let vb = visits(b, hw, opts);
    assert forall|i: int| 0 <= i < va.len() implies (#[trigger] va[i]).tag.is_like(vb[i].tag)
        && va[i].deferred == vb[i].deferred by {
        if i < first.len() {
            assert(first[i] < a.len());
            assert(a[first[i] as int].is_like(b[first[i] as int]));
        } else {
            let j = i - first.len();
            assert(then[j] < a.len());
            assert(a[then[j] as int].is_like(b[then[j] as int]));
        }
    }
    assert forall|j: int| 0 <= j < then.len() implies deferred_traces(a, hw, opts)[j]
        == deferred_traces(b, hw, opts)[j] by {
        assert(then[j] < a.len());
        assert(a[then[j] as int].is_like(b[then[j] as int]));
    }
    assert(deferred_traces(a, hw, opts) =~= deferred_traces(b, hw, opts));
}

/// Two tag lists with the same tags, of different names and with counts that can be
/// put in order, make for the same lookups and, given the replies to them, for the
/// same result, whichever order they are in.
pub proof fn law_outcome_ignores_list_order(
    model: Seq<char>,
    a: Seq<TagInfo>,
    b: Seq<TagInfo>,
    from: Seq<int>,
    hw: HardwareProfile,
    opts: ResolveOpts,
    replies: Seq<Result<(u64, u64), ResolverError>>,
)
    requires
        a.len() <= usize::MAX,
        rank::lists_same_tags(a, b, from),
        rank::names_differ(a),
        order::is_strict_order_on(
            a,
            rank::rank_order(rank::any_instruct(a), rank::any_default_quantized(a)),
        ),
    ensures
        outcome(model, a, hw, opts, replies) == outcome(model, b, hw, opts, replies),
        lookups(full_walk(model, a, hw, opts, replies)) == lookups(
            full_walk(model, b, hw, opts, replies),
        ),
        visits(rank::ranked(a), hw, opts).len() == visits(rank::ranked(b), hw, opts).len(),
        forall|i: int|
            0 <= i < visits(rank::ranked(a), hw, opts).len() ==> (#[trigger] visits(
                rank::ranked(a),
                hw,
                opts,
            )[i]).tag.is_like(visits(rank::ranked(b), hw, opts)[i].tag),
{
    rank::law_ranking_ignores_list_order_of_like_tags(a, b, from);
    lemma_visits_alike(rank::ranked(a), rank::ranked(b), hw, opts);
    let v1 = visits(rank::ranked(a), hw, opts);
    let v2 = visits(rank::ranked(b), hw, opts);
    let start = at_start(rank::ranked(a), hw, opts);
    lemma_walk_alike(model, v1, v2, v1.len(), hw, opts, replies, replies, start);
}

/// A resolution does not depend on the order of the tag list: where two registries
/// list the same tags, of different names and with counts that can be put in order,
/// and answer alike for each manifest, they are asked for the same manifests in the
/// same order, and the results are equal.
pub proof fn law_resolution_ignores_list_order(
    model: Seq<char>,
    hw: HardwareProfile,
    opts: ResolveOpts,
    asked1: Seq<Lookup>,
    result1: Result<OutcomeView, ErrorView>,
    asked2: Seq<Lookup>,
    result2: Result<OutcomeView, ErrorView>,
    from: Seq<int>,
)
    requires
        is_resolution(model, hw, opts, asked1, result1),
        is_resolution(model, hw, opts, asked2, result2),
        asked1[0]->Tags_reply is Ok,
        asked2[0]->Tags_reply is Ok,
        ({
            let a = asked1[0]->Tags_reply->Ok_0@;
            let b = asked2[0]->Tags_reply->Ok_0@;
            &&& rank::lists_same_tags(a, b, from)
            &&& rank::names_differ(a)
            &&& order::is_strict_order_on(
                a,
                rank::rank_order(rank::any_instruct(a), rank::any_default_quantized(a)),
            )
        }),
        answers_agree(asked1, asked2),
    ensures
        result1 == result2,
        asked1.len() == asked2.len(),
        forall|i: int|
            1 <= i < asked1.len() ==> lookups_alike(#[trigger] asked1[i], asked2[i]),
{
    let tags1 = asked1[0]->Tags_reply->Ok_0;
    let tags2 = asked2[0]->Tags_reply->Ok_0;
    assert(tags1.len() <= usize::MAX);
    rank::law_ranking_ignores_list_order_of_like_tags(tags1@, tags2@, from);
    let ranked1 = rank::ranked(tags1@);
    let ranked2 = rank::ranked(tags2@);
    lemma_visits_alike(ranked1, ranked2, hw, opts);
    let v1 = visits(ranked1, hw, opts);
    let v2 = visits(ranked2, hw, opts);
    let start = at_start(ranked1, hw, opts);
    let rest1 = asked1.skip(1);
    let rest2 = asked2.skip(1);
    let r1 = manifest_replies(rest1);
    let r2 = manifest_replies(rest2);
    assert forall|i: int| 0 <= i < rest1.len() && 0 <= i < rest2.len() implies #[trigger]
        lookups_alike(rest1[i], rest2[i]) by {
        assert(rest1[i] == asked1[i + 1] && rest2[i] == asked2[i + 1]);
        assert(v1[i].tag.is_like(v2[i].tag));
    }
    if rest1.len() <= rest2.len() {
        assert forall|i: int| 0 <= i < r1.len() implies replies_alike(#[trigger] r1[i], r2[i]) by {
            assert(lookups_alike(rest1[i], rest2[i]));
        }
        lemma_walk_alike(model, v1, v2, v1.len(), hw, opts, r1, r2, start);
    } else {
        assert forall|i: int| 0 <= i < r2.len() implies replies_alike(#[trigger] r2[i], r1[i]) by {
            assert(lookups_alike(rest1[i], rest2[i]));
        }
        assert(visits_alike(v2, v1)) by {
            assert forall|i: int| 0 <= i < v2.len() implies (#[trigger] v2[i]).tag.is_like(v1[i].tag)
                && v2[i].deferred == v1[i].deferred by {
                assert(v1[i].tag.is_like(v2[i].tag));
            }
        }
        lemma_walk_alike(model, v2, v1, v2.len(), hw, opts, r2, r1, start);
    }
    assert forall|i: int| 1 <= i < asked1.len() implies lookups_alike(
        #[trigger] asked1[i],
        asked2[i],
    ) by {
        assert(lookups_alike(rest1[i - 1], rest2[i - 1]));
    }
}

// ---- what the lookups decide -----------------------------------------------

/// A variant holds the sizes of its manifest, the margin of the request and the
/// memory that both come to, and what its tag says.
pub proof fn law_variant_is_as_sized(
    model: Seq<char>,
    tag: TagInfo,
    sizes: (u64, u64),
    hw: HardwareProfile,
    opts: ResolveOpts,
)
    ensures
        ({
            let v = variant_of(model, tag, sizes, opts);
            let margin = opts.margin_pct + fit::context_margin(opts.context_tokens);
            let exact = sizes.0 * (100 + margin);
            &&& v.name == model
            &&& v.tag == tag.tag@
            &&& v.full_ref == tag.full_ref@
            &&& v.weights_bytes == sizes.0
            &&& v.total_bytes == sizes.1
            &&& v.context_tokens == opts.context_tokens
            &&& v.param_billions == tag.param_billions
            &&& v.quantization == text::opt_text(tag.quantization)
            &&& v.is_instruct == tag.is_instruct
            &&& margin <= u32::MAX ==> v.runtime_margin_pct == margin
            &&& margin <= u32::MAX && exact <= u64::MAX * 100 ==> exact
                <= v.estimated_runtime_bytes * 100 < exact + 100
            &&& sized_verdict(sizes, hw, opts) == fit::verdict(
                v.total_bytes,
                v.estimated_runtime_bytes,
                hw,
                opts.allow_split,
            )
        }),
{
    fit::law_margins_add_up(opts);
    fit::law_estimate_is_a_ceiling(sizes.0, fit::effective_margin(opts));
}

/// A tag is put behind the others exactly when its page gives a size, and a variant
/// of that size, weights and all, would not fit under the same options. (`vram_free`
/// always equals `vram_total` on a detected machine.)
pub proof fn law_hint_foretells_the_verdict(tag: TagInfo, hw: HardwareProfile, opts: ResolveOpts)
    requires
        hw.vram_free == hw.vram_total,
    ensures
        tag.approx_bytes() is None ==> !hint_rejects(tag, hw, opts),
        tag.approx_bytes() matches Some(s) ==> (hint_rejects(tag, hw, opts) <==> !sized_verdict(
            (s, s),
            hw,
            opts,
        ).is_fit()),
{
}

/// The hint on the fields of a machine with selected GPUs: it rejects what the disk
/// cannot hold and what GPU memory, with the system's where a split is allowed,
/// cannot run.
pub proof fn law_hint_counts_split_memory(tag: TagInfo, s: u64, hw: HardwareProfile, opts: ResolveOpts)
    requires
        tag.approx_bytes() == Some(s),
        hw.unified_mem_total == 0,
        hw.vram_total > 0,
        hw.vram_free == hw.vram_total,
        hw.selected_gpu_indices@.len() > 0,
    ensures
        hint_rejects(tag, hw, opts) <==> s > hw.disk_free || fit::runtime_estimate(
            s,
            fit::effective_margin(opts),
        ) > hw.vram_total + (if opts.allow_split {
            hw.ram_available as int
        } else {
            0
        }),
{
}

/// The tags are looked up in two runs: first those that the hint does not reject,
/// then the others, each run in the order of the ranking.
pub proof fn law_lookup_order(
    tags: Seq<TagInfo>,
    hw: HardwareProfile,
    opts: ResolveOpts,
    i: int,
    j: int,
) -> (places: (int, int))
    requires
        tags.len() <= usize::MAX,
        0 <= i < j < tags.len(),
    ensures
        visits(tags, hw, opts).len() == tags.len(),
        0 <= places.0 < tags.len(),
        0 <= places.1 < tags.len(),
        places.0 != places.1,
        visits(tags, hw, opts)[i].tag == tags[places.0],
        visits(tags, hw, opts)[j].tag == tags[places.1],
        visits(tags, hw, opts)[i].deferred == hint_rejects(tags[places.0], hw, opts),
        visits(tags, hw, opts)[j].deferred == hint_rejects(tags[places.1], hw, opts),
        hint_rejects(tags[places.0], hw, opts) ==> hint_rejects(tags[places.1], hw, opts),
        hint_rejects(tags[places.0], hw, opts) == hint_rejects(tags[places.1], hw, opts)
            ==> places.0 < places.1,
{
    lemma_plan(tags, hw, opts);
    let first = hinted(tags, hw, opts, false);
    let then = hinted(tags, hw, opts, true);
    let n = first.len() as int;
    let p = if i < n {
        lemma_hinted_below(tags, hw, opts, false, i);
        first[i] as int
    } else {
        lemma_hinted_below(tags, hw, opts, true, i - n);
        then[i - n] as int
    };
    let q = if j < n {
        lemma_hinted_below(tags, hw, opts, false, j);
        first[j] as int
    } else {
        lemma_hinted_below(tags, hw, opts, true, j - n);
        then[j - n] as int
    };
    if j < n {
        law_both_parts_keep_ranked_order(tags, hw, opts, false, i, j);
    } else if i >= n {
        law_both_parts_keep_ranked_order(tags, hw, opts, true, i - n, j - n);
    }
    (p, q)
}

/// Where the page gives every tag the sizes of its manifest, the best ranked tag that
/// fits is chosen, with a single lookup.
pub proof fn law_true_hints_lead_to_the_best(
    model: Seq<char>,
    tags: Seq<TagInfo>,
    hw: HardwareProfile,
    opts: ResolveOpts,
    replies: Seq<Result<(u64, u64), ResolverError>>,
    k: int,
)
    requires
        tags.len() <= usize::MAX,
        hw.vram_free == hw.vram_total,
        opts.max_manifest_lookups != Some(0usize),
        ({
            let ranked = rank::ranked(tags);
            let vs = visits(ranked, hw, opts);
            &&& 0 <= k < ranked.len()
            &&& forall|i: int|
                0 <= i < ranked.len() ==> (#[trigger] ranked[i]).approx_bytes() is Some
            &&& forall|i: int|
                0 <= i < k ==> !sized_verdict(
                    (
                        (#[trigger] ranked[i]).approx_bytes()->Some_0,
                        ranked[i].approx_bytes()->Some_0,
                    ),
                    hw,
                    opts,
                ).is_fit()
            &&& sized_verdict(
                (ranked[k].approx_bytes()->Some_0, ranked[k].approx_bytes()->Some_0),
                hw,
                opts,
            ).is_fit()
            &&& forall|i: int|
                0 <= i < vs.len() ==> #[trigger] replies[i] == Ok::<(u64, u64), ResolverError>(
                    (vs[i].tag.approx_bytes()->Some_0, vs[i].tag.approx_bytes()->Some_0),
                )
        }),
    ensures
        ({
            let best = rank::ranked(tags)[k];
            let s = best.approx_bytes()->Some_0;
            &&& outcome(model, tags, hw, opts, replies) matches Ok(o) && o.variant == variant_of(
                model,
                best,
                (s, s),
                opts,
            ) && o.fit == sized_verdict((s, s), hw, opts)
            &&& lookups(full_walk(model, tags, hw, opts, replies)) == 1
        }),
{
    let ranked = rank::ranked(tags);
    let from = rank::law_ranking_keeps_every_tag(tags);
    let vs = visits(ranked, hw, opts);
    assert forall|i: int| 0 <= i < k implies hint_rejects(#[trigger] ranked[i], hw, opts) by {
        law_hint_foretells_the_verdict(ranked[i], hw, opts);
    }
    law_hint_foretells_the_verdict(ranked[k], hw, opts);
    lemma_plan(ranked, hw, opts);
    let first = hinted(ranked, hw, opts, false);
    let at = lemma_plan_holds(ranked, hw, opts, k);
    assert(first[0] == k) by {
        lemma_hinted_below(ranked, hw, opts, false, 0);
        if at > 0 {
            law_both_parts_keep_ranked_order(ranked, hw, opts, false, 0, at);
            assert(hint_rejects(ranked[first[0] as int], hw, opts));
        }
    }
    assert(vs[0].tag == ranked[k]);
    assert(replies[0] is Ok);
    assert(shows_fit(replies[0], hw, opts));
    let start = at_start(ranked, hw, opts);
    assert(!cap_reached(opts, 0));
    lemma_walk_ends(model, vs, 0, hw, opts, replies, start);
}

/// The reply shows that a variant fits: it gives sizes, the disk holds the download,
/// and the memory covers the weights with their margin.
pub open spec fn reply_fits(
    reply: Result<(u64, u64), ResolverError>,
    hw: HardwareProfile,
    opts: ResolveOpts,
) -> bool {
    reply matches Ok((weights, total)) && ({
        let v = fit::verdict(
            total,
            fit::runtime_estimate(weights, fit::effective_margin(opts)),
            hw,
            opts.allow_split,
        );
        v is FitsVram || v is FitsWithSplit || v is FitsRamOnly
    })
}

/// The reply says nothing of the candidate: it is an error other than that there is
/// no such manifest, that it has no local weights, or that it is for macOS only.
pub open spec fn reply_fails(reply: Result<(u64, u64), ResolverError>) -> bool {
    match reply {
        Ok(_) => false,
        Err(ResolverError::ManifestMissing { .. }) => false,
        Err(ResolverError::ManifestCloudOnly { .. }) => false,
        Err(ResolverError::ManifestPlatformRestricted { .. }) => false,
        Err(_) => true,
    }
}

/// What a resolution asks: first for the tags of the model, and for nothing more
/// where that fails; then for manifests of listed tags, no more than the cap allows.
pub proof fn law_what_a_resolution_asks(
    model: Seq<char>,
    hw: HardwareProfile,
    opts: ResolveOpts,
    asked: Seq<Lookup>,
    r: Result<OutcomeView, ErrorView>,
)
    requires
        is_resolution(model, hw, opts, asked, r),
    ensures
        asked.len() >= 1,
        asked[0] matches Lookup::Tags { model: m, .. } && m == model,
        asked[0]->Tags_reply matches Err(e) ==> asked.len() == 1 && r == Err::<OutcomeView, _>(e@),
        asked[0]->Tags_reply matches Ok(tags) ==> {
            &&& asked.len() - 1 <= tags@.len()
            &&& opts.max_manifest_lookups matches Some(max) ==> asked.len() - 1 <= max
            &&& forall|i: int|
                1 <= i < asked.len() ==> (#[trigger] asked[i] matches Lookup::Manifest {
                    model: m,
                    ..
                } && m == model)
            &&& forall|i: int|
                1 <= i < asked.len() ==> exists|j: int|
                    0 <= j < tags@.len() && (#[trigger] tags@[j]).tag@ == (
                    #[trigger] asked[i])->Manifest_tag
            &&& asked.len() - 1 <= visits(rank::ranked(tags@), hw, opts).len()
            &&& forall|i: int|
                1 <= i < asked.len() ==> (#[trigger] asked[i])->Manifest_tag == visits(
                    rank::ranked(tags@),
                    hw,
                    opts,
                )[i - 1].tag.tag@
        },
{
    if let Ok(tags) = asked[0]->Tags_reply {
        let ranked = rank::ranked(tags@);
        let vs = visits(ranked, hw, opts);
        let rest = asked.skip(1);
        let replies = manifest_replies(rest);
        assert(tags.len() <= usize::MAX);
        let from = rank::law_ranking_keeps_every_tag(tags@);
        lemma_plan(ranked, hw, opts);
        law_lookups_stay_within_the_cap(model, tags@, hw, opts, replies);
        assert forall|i: int| 1 <= i < asked.len() implies (#[trigger] asked[i])->Manifest_tag
            == vs[i - 1].tag.tag@ by {
            assert(rest[i - 1] == asked[i]);
        }
        assert forall|i: int| 1 <= i < asked.len() implies (#[trigger] asked[i] matches Lookup::Manifest {
            model: m,
            ..
        } && m == model) by {
            assert(rest[i - 1] == asked[i]);
        }
        assert forall|i: int| 1 <= i < asked.len() implies exists|j: int|
            0 <= j < tags@.len() && (#[trigger] tags@[j]).tag@ == (
            #[trigger] asked[i])->Manifest_tag by {
            assert(rest[i - 1] == asked[i]);
            let p = lemma_visit_is_listed(ranked, hw, opts, i - 1);
            assert(ranked[p] == tags@[from[p]]);
            assert(tags@[from[p]].tag@ == asked[i]->Manifest_tag);
        }
    }
}

proof fn lemma_visit_is_listed(tags: Seq<TagInfo>, hw: HardwareProfile, opts: ResolveOpts, i: int) -> (p:
    int)
    requires
        tags.len() <= usize::MAX,
        0 <= i < visits(tags, hw, opts).len(),
    ensures
        0 <= p < tags.len(),
        visits(tags, hw, opts)[i].tag == tags[p],
{
    let n = hinted(tags, hw, opts, false).len() as int;
    if i < n {
        lemma_hinted_below(tags, hw, opts, false, i);
        hinted(tags, hw, opts, false)[i] as int
    } else {
        lemma_hinted_below(tags, hw, opts, true, i - n);
        hinted(tags, hw, opts, true)[i - n] as int
    }
}

/// Which lookup decides. No reply but the last shows a fit or fails. If the last
/// shows a fit, that variant is the result; if it fails, its error is. Else
/// everything that the cap allows was looked up, and the result is the sized variant
/// with the least weights, the first of equals; or, where none was sized, the error
/// for the first candidate that is for macOS only, else for the first without local
/// weights, else that no manifest is usable.
pub proof fn law_which_lookup_decides(
    model: Seq<char>,
    hw: HardwareProfile,
    opts: ResolveOpts,
    asked: Seq<Lookup>,
    r: Result<OutcomeView, ErrorView>,
)
    requires
        is_resolution(model, hw, opts, asked, r),
        asked[0]->Tags_reply is Ok,
    ensures
        forall|i: int|
            1 <= i < asked.len() - 1 ==> !reply_fits(
                (#[trigger] asked[i])->Manifest_reply,
                hw,
                opts,
            ) && !reply_fails(asked[i]->Manifest_reply),
        asked.len() > 1 && reply_fits(asked.last()->Manifest_reply, hw, opts) ==> (r matches Ok(o)
            && o.fit.is_fit() && o.fit == sized_verdict(
            asked.last()->Manifest_reply->Ok_0,
            hw,
            opts,
        ) && o.variant.tag == asked.last()->Manifest_tag
            && o.variant.weights_bytes == asked.last()->Manifest_reply->Ok_0.0
            && o.variant.total_bytes == asked.last()->Manifest_reply->Ok_0.1),
        asked.len() > 1 && reply_fails(asked.last()->Manifest_reply) ==> r == Err::<OutcomeView, _>(
            asked.last()->Manifest_reply->Err_0@,
        ),
        leads_nowhere(asked, hw, opts) ==> asked.len() - 1 == asked[0]->Tags_reply->Ok_0@.len()
            || opts.max_manifest_lookups == Some((asked.len() - 1) as usize),
        leads_nowhere(asked, hw, opts) ==> (r is Ok <==> exists|i: int|
            1 <= i < asked.len() && (#[trigger] asked[i])->Manifest_reply is Ok),
        leads_nowhere(asked, hw, opts) && r is Ok ==> !r->Ok_0.fit.is_fit() && exists|i: int|
            1 <= i < asked.len() && #[trigger] is_least(asked, asked.len() - 1, i) && r->Ok_0.fit
                == sized_verdict(asked[i]->Manifest_reply->Ok_0, hw, opts)
                && r->Ok_0.variant.tag == asked[i]->Manifest_tag && r->Ok_0.variant.weights_bytes
                == asked[i]->Manifest_reply->Ok_0.0 && r->Ok_0.variant.total_bytes
                == asked[i]->Manifest_reply->Ok_0.1,
        leads_nowhere(asked, hw, opts) && r is Err ==> is_due_error(asked, model, r->Err_0),
{
    let tags = asked[0]->Tags_reply->Ok_0;
    let ranked = rank::ranked(tags@);
    let vs = visits(ranked, hw, opts);
    let start = at_start(ranked, hw, opts);
    let rest = asked.skip(1);
    let replies = manifest_replies(rest);
    let n = asked.len() - 1;
    assert(tags.len() <= usize::MAX);
    let from = rank::law_ranking_keeps_every_tag(tags@);
    lemma_plan(ranked, hw, opts);
    assert(vs.len() == tags@.len());
    let most = within_cap(opts, vs.len());
    let k = first_end(replies, most, hw, opts);
    lemma_first_end(replies, most, hw, opts);
    assert forall|i: int| 0 <= i < replies.len() implies {
        &&& #[trigger] replies[i] == asked[i + 1]->Manifest_reply
        &&& asked[i + 1]->Manifest_tag == vs[i].tag.tag@
        &&& shows_fit(replies[i], hw, opts) == reply_fits(asked[i + 1]->Manifest_reply, hw, opts)
        &&& is_fatal(replies[i]) == reply_fails(asked[i + 1]->Manifest_reply)
    } by {
        assert(rest[i] == asked[i + 1]);
    }
    if k < most {
        lemma_walk_ends(model, vs, k, hw, opts, replies, start);
        assert(n == k + 1);
        assert(replies[k as int] == asked[n]->Manifest_reply);
        assert forall|i: int| 1 <= i < n implies !reply_fits(
            (#[trigger] asked[i])->Manifest_reply,
            hw,
            opts,
        ) && !reply_fails(asked[i]->Manifest_reply) by {
            assert(leads_on(replies[i - 1], hw, opts));
        }
        assert(!leads_nowhere(asked, hw, opts));
    } else {
        lemma_walk_goes_on(model, vs, vs.len(), hw, opts, replies, start);
        let p = walk(model, vs, vs.len(), hw, opts, replies, start)->Going_0;
        assert(n == most);
        assert forall|i: int| 1 <= i <= n implies !reply_fits(
            (#[trigger] asked[i])->Manifest_reply,
            hw,
            opts,
        ) && !reply_fails(asked[i]->Manifest_reply) by {
            assert(leads_on(replies[i - 1], hw, opts));
        }
        if p.smallest is Some {
            let i = choose|i: int|
                0 <= i < p.lookups && #[trigger] is_smallest(replies, p.lookups, i)
                    && p.smallest->Some_0.0 == variant_of(model, vs[i].tag, replies[i]->Ok_0, opts)
                    && p.smallest->Some_0.1 == sized_verdict(replies[i]->Ok_0, hw, opts);
            assert(leads_on(replies[i], hw, opts));
            assert(replies[i] == asked[i + 1]->Manifest_reply);
            assert(is_least(asked, n, i + 1)) by {
                assert forall|j: int| 1 <= j <= n && (#[trigger] asked[j])->Manifest_reply is Ok implies {
                    &&& asked[i + 1]->Manifest_reply->Ok_0.0 <= asked[j]->Manifest_reply->Ok_0.0
                    &&& j < i + 1 ==> asked[i + 1]->Manifest_reply->Ok_0.0
                        < asked[j]->Manifest_reply->Ok_0.0
                } by {
                    assert(replies[j - 1] is Ok);
                }
            }
            assert(r is Ok);
        } else {
            assert forall|i: int| 1 <= i <= n implies !((#[trigger] asked[i])->Manifest_reply is Ok) by {
                assert(!(replies[i - 1] is Ok));
            }
            if p.platform_restricted is Some {
                let (tag, status) = p.platform_restricted->Some_0;
                let i = choose|i: int|
                    0 <= i < p.lookups && #[trigger] is_first_restricted(replies, i, status) && tag
                        == vs[i].tag.tag@;
                assert(replies[i] == asked[i + 1]->Manifest_reply);
                assert(is_first_gated(asked, i + 1, tag, status)) by {
                    assert forall|j: int| 1 <= j < i + 1 implies !((
                    #[trigger] asked[j])->Manifest_reply matches Err(
                        ResolverError::ManifestPlatformRestricted { .. },
                    )) by {
                        assert(!is_restricted(replies[j - 1]));
                    }
                }
                assert(r == Err::<OutcomeView, _>(
                    ErrorView::ManifestPlatformRestricted { model, tag, status },
                ));
                let e = r->Err_0;
                assert(is_first_gated(
                    asked,
                    i + 1,
                    e->ManifestPlatformRestricted_tag,
                    e->ManifestPlatformRestricted_status,
                ));
                assert(is_due_error(asked, model, e));
            } else {
                assert forall|i: int| 1 <= i <= n implies !((
                #[trigger] asked[i])->Manifest_reply matches Err(
                    ResolverError::ManifestPlatformRestricted { .. },
                )) by {
                    assert(!is_restricted(replies[i - 1]));
                }
                if p.cloud_only is Some {
                    let tag = p.cloud_only->Some_0;
                    let i = choose|i: int|
                        0 <= i < p.lookups && #[trigger] is_first_cloud_only(replies, i) && tag
                            == vs[i].tag.tag@;
                    assert(replies[i] == asked[i + 1]->Manifest_reply);
                    assert(is_cloud_only(replies[i]));
                    assert(is_first_in_cloud(asked, n, i + 1, tag)) by {
                        assert forall|j: int| 1 <= j < i + 1 implies !((
                        #[trigger] asked[j])->Manifest_reply matches Err(
                            ResolverError::ManifestCloudOnly { .. },
                        )) by {
                            assert(!is_cloud_only(replies[j - 1]));
                        }
                    }
                    assert(r == Err::<OutcomeView, _>(ErrorView::ManifestCloudOnly { model, tag }));
                    let e = r->Err_0;
                    assert(is_first_in_cloud(
                        asked,
                        asked.len() - 1,
                        i + 1,
                        e->ManifestCloudOnly_tag,
                    ));
                    assert(is_due_error(asked, model, e));
                } else {
                    assert forall|i: int| 1 <= i <= n implies ((
                    #[trigger] asked[i])->Manifest_reply matches Err(
                        ResolverError::ManifestMissing { .. },
                    )) by {
                        assert(!is_cloud_only(replies[i - 1]));
                        assert(leads_on(replies[i - 1], hw, opts));
                    }
                    assert(is_due_error(asked, model, r->Err_0));
                }
            }
        }
    }
}

/// The error that is due where no variant could be sized: for the first candidate
/// that is for macOS only, else for the first without local weights, else that there
/// was no manifest for any.
pub open spec fn is_due_error(asked: Seq<Lookup>, model: Seq<char>, e: ErrorView) -> bool {
    match e {
        ErrorView::ManifestPlatformRestricted { model: m, tag, status } => m == model && exists|
            i: int,
        | 1 <= i < asked.len() && #[trigger] is_first_gated(asked, i, tag, status),
        ErrorView::ManifestCloudOnly { model: m, tag } => m == model && exists|i: int|
            1 <= i < asked.len() && #[trigger] is_first_in_cloud(asked, asked.len() - 1, i, tag),
        ErrorView::NoUsableManifest { model: m, .. } => m == model && forall|i: int|
            1 <= i < asked.len() ==> ((#[trigger] asked[i])->Manifest_reply matches Err(
                ResolverError::ManifestMissing { .. },
            )),
        _ => false,
    }
}

/// No lookup was made, or the last shows no fit and does not fail either.
pub open spec fn leads_nowhere(asked: Seq<Lookup>, hw: HardwareProfile, opts: ResolveOpts) -> bool {
    asked.len() <= 1 || (!reply_fits(asked.last()->Manifest_reply, hw, opts) && !reply_fails(
        asked.last()->Manifest_reply,
    ))
}

/// Reply `i` of the first `n` gives sizes, has the least weights of all that do, and
/// is the first that has.
pub open spec fn is_least(asked: Seq<Lookup>, n: int, i: int) -> bool {
    asked[i]->Manifest_reply is Ok && forall|j: int|
        1 <= j <= n && (#[trigger] asked[j])->Manifest_reply is Ok ==> {
            &&& asked[i]->Manifest_reply->Ok_0.0 <= asked[j]->Manifest_reply->Ok_0.0
            &&& j < i ==> asked[i]->Manifest_reply->Ok_0.0 < asked[j]->Manifest_reply->Ok_0.0
        }
}

/// Lookup `i` is the first that says that its tag is for macOS only.
pub open spec fn is_first_gated(asked: Seq<Lookup>, i: int, tag: Seq<char>, status: u16) -> bool {
    &&& asked[i]->Manifest_tag == tag
    &&& asked[i]->Manifest_reply matches Err(ResolverError::ManifestPlatformRestricted {
        status: s,
        ..
    }) && s == status
    &&& forall|j: int|
        1 <= j < i ==> !((#[trigger] asked[j])->Manifest_reply matches Err(
            ResolverError::ManifestPlatformRestricted { .. },
        ))
}

/// Lookup `i` is the first that says that its tag has no local weights, and none of
/// the first `n` says that its tag is for macOS only.
pub open spec fn is_first_in_cloud(asked: Seq<Lookup>, n: int, i: int, tag: Seq<char>) -> bool {
    &&& asked[i]->Manifest_tag == tag
    &&& asked[i]->Manifest_reply matches Err(ResolverError::ManifestCloudOnly { .. })
    &&& forall|j: int|
        1 <= j < i ==> !((#[trigger] asked[j])->Manifest_reply matches Err(
            ResolverError::ManifestCloudOnly { .. },
        ))
    &&& forall|j: int|
        1 <= j <= n ==> !((#[trigger] asked[j])->Manifest_reply matches Err(
            ResolverError::ManifestPlatformRestricted { .. },
        ))
}

/// The diagnostics of a walk that ended nowhere list the deferred tags as the ranking
/// has them, and each candidate with its own name and size label.
pub proof fn law_deferred_tags_are_listed(
    tags: Seq<TagInfo>,
    hw: HardwareProfile,
    opts: ResolveOpts,
    i: int,
)
    requires
        tags.len() <= usize::MAX,
        0 <= i < tags.len(),
    ensures
        hint_rejects(tags[i], hw, opts) <==> exists|k: int|
            0 <= k < hinted(tags, hw, opts, true).len() && (#[trigger] hinted(
                tags,
                hw,
                opts,
                true,
            )[k]) == i,
        at_start(tags, hw, opts).diagnostics.approx_deferred.len() == hinted(
            tags,
            hw,
            opts,
            true,
        ).len(),
        forall|k: int|
            0 <= k < hinted(tags, hw, opts, true).len() && (#[trigger] hinted(
                tags,
                hw,
                opts,
                true,
            )[k]) == i ==> at_start(tags, hw, opts).diagnostics.approx_deferred[k].full_ref
                == tags[i].full_ref@ && at_start(
                tags,
                hw,
                opts,
            ).diagnostics.approx_deferred[k].approx_size == text::opt_text(tags[i].approx_size),
{
    let part = hinted(tags, hw, opts, true);
    if hint_rejects(tags[i], hw, opts) {
        let at = lemma_plan_holds(tags, hw, opts, i);
        assert(part[at] == i);
    }
    if exists|k: int| 0 <= k < part.len() && #[trigger] part[k] == i {
        let k = choose|k: int| 0 <= k < part.len() && #[trigger] part[k] == i;
        lemma_hinted_below(tags, hw, opts, true, k);
    }
}

/// What a reply leads to, and what is noted of it: one more candidate that was looked
/// up, under its own name and size label, with a decision that tells what the reply
/// said.
pub proof fn law_what_is_noted_of_a_reply(
    model: Seq<char>,
    visit: Visit,
    hw: HardwareProfile,
    opts: ResolveOpts,
    progress: ProgressView,
    reply: Result<(u64, u64), ResolverError>,
)
    ensures
        ({
            let next = after_reply(model, visit, hw, opts, progress, reply);
            let before = progress.diagnostics;
            let noted = |d: DiagnosticsView, decision: Seq<char>|
                d.approx_deferred == before.approx_deferred && d.manifest_skipped_by_cap
                    == before.manifest_skipped_by_cap && d.manifest_checked
                    == before.manifest_checked.push(
                    TraceView {
                        full_ref: visit.tag.full_ref@,
                        approx_size: text::opt_text(visit.tag.approx_size),
                        decision,
                    },
                );
            match reply {
                Ok(sizes) => {
                    let fit = sized_verdict(sizes, hw, opts);
                    &&& fit.is_fit() ==> (next matches Walk::Selected(o, n) && n == progress.lookups
                        + 1 && o.fit == fit && noted(
                        o.diagnostics,
                        if visit.deferred {
                            "selected after exact manifest overrode page-size hint"@
                        } else {
                            "selected"@
                        },
                    ))
                    &&& !fit.is_fit() ==> (next matches Walk::Going(p) && p.lookups
                        == progress.lookups + 1 && noted(
                        p.diagnostics,
                        fit.summary_text(Seq::empty()),
                    ))
                },
                Err(ResolverError::ManifestMissing { detail, .. }) => next matches Walk::Going(p)
                    && p.lookups == progress.lookups + 1 && noted(
                    p.diagnostics,
                    "manifest missing; skipped ("@ + detail@ + ")"@,
                ),
                Err(ResolverError::ManifestCloudOnly { .. }) => next matches Walk::Going(p)
                    && p.lookups == progress.lookups + 1 && noted(
                    p.diagnostics,
                    "cloud-only model; no local weights"@,
                ),
                Err(ResolverError::ManifestPlatformRestricted { status, .. }) => next
                    matches Walk::Going(p) && p.lookups == progress.lookups + 1 && noted(
                    p.diagnostics,
                    "platform-restricted (HTTP "@ + text::decimal(status as nat)
                        + "); requires macOS"@,
                ),
                Err(e) => next == Walk::Failed(e, progress.lookups + 1),
            }
        }),
{
}

/// The traces of the first `n` visits, of which as many were looked up as the cap
/// allows.
spec fn traces_visits(visits: Seq<Visit>, d: DiagnosticsView, lookups: nat) -> bool {
    &&& d.manifest_checked.len() == lookups
    &&& lookups <= visits.len()
    &&& forall|i: int|
        0 <= i < lookups ==> (#[trigger] d.manifest_checked[i]).full_ref
            == visits[i].tag.full_ref@ && d.manifest_checked[i].approx_size == text::opt_text(
            visits[i].tag.approx_size,
        )
}

proof fn lemma_walk_traces(
    model: Seq<char>,
    visits: Seq<Visit>,
    n: nat,
    hw: HardwareProfile,
    opts: ResolveOpts,
    replies: Seq<Result<(u64, u64), ResolverError>>,
    start: ProgressView,
)
    requires
        n <= visits.len(),
        start.lookups == 0,
        start.diagnostics.manifest_checked.len() == 0,
        start.diagnostics.manifest_skipped_by_cap.len() == 0,
    ensures
        match walk(model, visits, n, hw, opts, replies, start) {
            Walk::Going(p) => {
                &&& p.lookups == within_cap(opts, n)
                &&& traces_visits(visits, p.diagnostics, p.lookups)
                &&& p.diagnostics.approx_deferred == start.diagnostics.approx_deferred
                &&& p.diagnostics.manifest_skipped_by_cap.len() == n - p.lookups
                &&& forall|i: int|
                    0 <= i < n - p.lookups ==> (
                    #[trigger] p.diagnostics.manifest_skipped_by_cap[i]).full_ref == visits[p.lookups
                        + i].tag.full_ref@
            },
            Walk::Selected(o, m) => {
                &&& traces_visits(visits, o.diagnostics, m)
                &&& o.diagnostics.approx_deferred == start.diagnostics.approx_deferred
                &&& o.diagnostics.manifest_skipped_by_cap.len() == 0
                &&& m > 0 && o.variant.full_ref == visits[m - 1].tag.full_ref@
            },
            Walk::Failed(_, _) => true,
        },
    decreases n,
{
    if n > 0 {
        let m = (n - 1) as nat;
        lemma_walk_traces(model, visits, m, hw, opts, replies, start);
        if let Walk::Going(p) = walk(model, visits, m, hw, opts, replies, start) {
            if !cap_reached(opts, p.lookups) {
                law_what_is_noted_of_a_reply(
                    model,
                    visits[m as int],
                    hw,
                    opts,
                    p,
                    replies[p.lookups as int],
                );
                assert(p.lookups == m);
            }
        }
    }
}

/// The diagnostics of a result list the deferred tags, and the candidates that were
/// looked up and skipped, in the order of the lookups; a variant that was chosen is the
/// last that was looked up.
pub proof fn law_diagnostics_of_a_result(
    model: Seq<char>,
    tags: Seq<TagInfo>,
    hw: HardwareProfile,
    opts: ResolveOpts,
    replies: Seq<Result<(u64, u64), ResolverError>>,
)
    requires
        outcome(model, tags, hw, opts, replies) is Ok,
    ensures
        ({
            let vs = visits(rank::ranked(tags), hw, opts);
            let o = outcome(model, tags, hw, opts, replies)->Ok_0;
            let n = lookups(full_walk(model, tags, hw, opts, replies));
            &&& o.diagnostics.approx_deferred == at_start(
                rank::ranked(tags),
                hw,
                opts,
            ).diagnostics.approx_deferred
            &&& o.diagnostics.manifest_checked.len() == n <= vs.len()
            &&& forall|i: int|
                0 <= i < n ==> (#[trigger] o.diagnostics.manifest_checked[i]).full_ref
                    == vs[i].tag.full_ref@ && o.diagnostics.manifest_checked[i].approx_size
                    == text::opt_text(vs[i].tag.approx_size)
            &&& forall|i: int|
                0 <= i < o.diagnostics.manifest_skipped_by_cap.len() ==> n + i < vs.len() && (
                #[trigger] o.diagnostics.manifest_skipped_by_cap[i]).full_ref == vs[n
                    + i].tag.full_ref@
            &&& o.fit.is_fit() ==> n > 0 && o.variant.full_ref == vs[n - 1].tag.full_ref@
                && o.diagnostics.manifest_skipped_by_cap.len() == 0
        }),
{
    let ranked = rank::ranked(tags);
    let vs = visits(ranked, hw, opts);
    let start = at_start(ranked, hw, opts);
    lemma_walk_traces(model, vs, vs.len(), hw, opts, replies, start);
    let o = outcome(model, tags, hw, opts, replies)->Ok_0;
    if o.fit.is_fit() {
        let k = law_choice_was_shown_to_fit(model, tags, hw, opts, replies);
        lemma_walk_ends(model, vs, k as nat, hw, opts, replies, start);
    }
}

} // verus!
