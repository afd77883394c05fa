//! The rows of a search: which are shown, in which order, and how many are hidden.

use vstd::prelude::*;

use crate::error::{ErrorView, ResolverError};
use crate::fit::{self, ResolveOpts};
use crate::order;
use crate::rank;
use crate::registry::{self, Lookup, Registry};
use crate::resolver::{self, OutcomeView};
use crate::text;
use crate::types::{
    self, AnnotatedSearchResult, FilteredReason, FitResult, HardwareProfile, ModelVariant,
    ParamCount, SearchResult, TagInfo, VariantView,
};

verus! {

/// An `AnnotatedSearchResult` with its texts as character sequences.
pub struct RowView {
    pub result: SearchResult,
    pub variant: Option<VariantView>,
    pub fit: Option<FitResult>,
    pub error: Option<Seq<char>>,
    pub filtered: Option<FilteredReason>,
}

impl View for AnnotatedSearchResult {
    type V = RowView;

    open spec fn view(&self) -> RowView {
        RowView {
            result: self.result,
            variant: match self.variant {
                Some(v) => Some(v@),
                None => None,
            },
            fit: self.fit,
            error: text::opt_text(self.error),
            filtered: self.filtered,
        }
    }
}

pub open spec fn row_views(rows: Seq<AnnotatedSearchResult>) -> Seq<RowView> {
    Seq::new(rows.len(), |i: int| rows[i]@)
}

// ---- what is shown ---------------------------------------------------------

/// Both kinds of rows in a list of at most `limit`: those that run here first,
/// then the rows for macOS, which keep their places.
pub open spec fn capped<T>(normal: Seq<T>, macos: Seq<T>, limit: nat) -> Seq<T> {
    let keep = if macos.len() < limit {
        macos.len()
    } else {
        limit
    };
    let room = (limit - keep) as nat;
    (if normal.len() < room {
        normal
    } else {
        normal.take(room as int)
    }) + macos.take(keep as int)
}

pub fn cap_rows(
    normal: Vec<AnnotatedSearchResult>,
    macos: Vec<AnnotatedSearchResult>,
    limit: usize,
) -> (r: Vec<AnnotatedSearchResult>)
    ensures
        r@ == capped(normal@, macos@, limit as nat),
{
    let mut rows = normal;
    let mut tail = macos;
    let macos_keep: usize = if tail.len() < limit {
        tail.len()
    } else {
        limit
    };
    rows.truncate(limit - macos_keep);
    tail.truncate(macos_keep);
    rows.append(&mut tail);
    rows
}

/// The model has no weights to run locally.
pub open spec fn is_cloud_row(row: RowView) -> bool {
    row.filtered == Some(FilteredReason::CloudOnly)
}

/// The model could be sized and does not fit.
pub open spec fn is_nonfit_row(row: RowView) -> bool {
    row.fit matches Some(fit) && !fit.is_fit()
}

/// The row stays: it can run locally, and it fits where that is asked for.
pub open spec fn stays(row: RowView, fit_filter: bool) -> bool {
    !is_cloud_row(row) && !(fit_filter && is_nonfit_row(row))
}

pub open spec fn staying<T>(rows: Seq<T>, keep: spec_fn(T) -> bool) -> Seq<T>
    decreases rows.len(),
{
    if rows.len() == 0 {
        rows
    } else if keep(rows.last()) {
        staying(rows.drop_last(), keep).push(rows.last())
    } else {
        staying(rows.drop_last(), keep)
    }
}

pub open spec fn count<T>(rows: Seq<T>, which: spec_fn(T) -> bool) -> nat
    decreases rows.len(),
{
    if rows.len() == 0 {
        0
    } else {
        count(rows.drop_last(), which) + if which(rows.last()) {
            1nat
        } else {
            0nat
        }
    }
}

pub open spec fn stays_pred(fit_filter: bool) -> spec_fn(AnnotatedSearchResult) -> bool {
    |row: AnnotatedSearchResult| stays(row@, fit_filter)
}

pub open spec fn cloud_pred() -> spec_fn(AnnotatedSearchResult) -> bool {
    |row: AnnotatedSearchResult| is_cloud_row(row@)
}

pub open spec fn nonfit_pred() -> spec_fn(AnnotatedSearchResult) -> bool {
    |row: AnnotatedSearchResult| !is_cloud_row(row@) && is_nonfit_row(row@)
}

fn is_cloud(row: &AnnotatedSearchResult) -> (r: bool)
    ensures
        r == is_cloud_row(row@),
{
    match row.filtered {
        Some(FilteredReason::CloudOnly) => true,
        _ => false,
    }
}

fn is_nonfit(row: &AnnotatedSearchResult) -> (r: bool)
    ensures
        r == is_nonfit_row(row@),
{
    match &row.fit {
        Some(fit) => !fit.fits(),
        None => false,
    }
}

/// Takes out the rows that cannot run locally and, where asked for, those that do
/// not fit; says how many of each. With `all` everything stays.
pub fn filter_search_rows(
    rows: &mut Vec<AnnotatedSearchResult>,
    fit_filter: bool,
    all: bool,
) -> (r: (u64, u64))
    ensures
        final(rows)@ == (if all {
            old(rows)@
        } else {
            staying(old(rows)@, stays_pred(fit_filter))
        }),
        r.0 == (if all {
            0
        } else {
            count(old(rows)@, cloud_pred())
        }),
        r.1 == (if all || !fit_filter {
            0
        } else {
            count(old(rows)@, nonfit_pred())
        }),
{
    if all {
        return (0, 0);
    }
    let ghost all_rows = rows@;
    let ghost mut seen: int = 0;
    let mut cloud: u64 = 0;
    let mut nonfit: u64 = 0;
    let mut i: usize = 0;
    assert(all_rows.skip(0) =~= all_rows);
    assert(rows.len() <= usize::MAX);
    while i < rows.len()
        invariant
            0 <= seen <= all_rows.len() <= usize::MAX,
            i <= rows@.len(),
            rows@.len() - i == all_rows.len() - seen,
            rows@.take(i as int) =~= staying(all_rows.take(seen), stays_pred(fit_filter)),
            rows@.skip(i as int) =~= all_rows.skip(seen),
            cloud == count(all_rows.take(seen), cloud_pred()),
            cloud + nonfit <= seen,
            nonfit == (if fit_filter {
                count(all_rows.take(seen), nonfit_pred())
            } else {
                0
            }),
        decreases rows.len() - i,
    {
        let ghost row = all_rows[seen];
        assert(rows@.skip(i as int)[0] == row);
        assert(all_rows.take(seen + 1).drop_last() =~= all_rows.take(seen));
        let ghost before = rows@;
        let hide_cloud = is_cloud(&rows[i]);
        let hide_nonfit = fit_filter && !hide_cloud && is_nonfit(&rows[i]);
        if hide_cloud {
            cloud = cloud + 1;
        } else if hide_nonfit {
            nonfit = nonfit + 1;
        }
        if hide_cloud || hide_nonfit {
            rows.remove(i);
            assert(rows@.take(i as int) =~= before.take(i as int));
            assert(rows@.skip(i as int) =~= before.skip(i as int).skip(1));
        } else {
            i = i + 1;
            assert(rows@.take(i as int) =~= before.take(i - 1).push(row));
            assert(rows@.skip(i as int) =~= before.skip(i - 1).skip(1));
        }
        proof {
            seen = seen + 1;
            assert(all_rows.skip(seen) =~= all_rows.skip(seen - 1).skip(1));
        }
    }
    assert(all_rows.take(seen) =~= all_rows);
    assert(rows@.take(i as int) =~= rows@);
    (cloud, nonfit)
}

// ---- rows for macOS --------------------------------------------------------

/// The number of parameters, 0 where it is unknown.
pub open spec fn params_of(tag: TagInfo) -> ParamCount {
    match tag.param_billions {
        Some(p) => p,
        None => ParamCount { bits: 0 },
    }
}

/// Fewer parameters, or neither fewer nor more and a name that comes before.
pub open spec fn is_smaller_tag(a: TagInfo, b: TagInfo) -> bool {
    params_of(a).is_below(params_of(b)) || (!params_of(b).is_below(params_of(a))
        && text::text_less(a.tag@, b.tag@))
}

/// The position of the largest tag that is for macOS only.
pub open spec fn largest_macos(tags: Seq<TagInfo>) -> Option<int>
    decreases tags.len(),
{
    if tags.len() == 0 {
        None
    } else {
        let last = tags.len() - 1;
        match largest_macos(tags.drop_last()) {
            Some(i) => if types::macos_only_text(tags[last].tag@) && !is_smaller_tag(
                tags[last],
                tags[i],
            ) {
                Some(last)
            } else {
                Some(i)
            },
            None => if types::macos_only_text(tags[last].tag@) {
                Some(last)
            } else {
                None
            },
        }
    }
}

/// The row that stands for a tag whose size cannot be had.
pub open spec fn macos_row_of(result: SearchResult, tag: TagInfo) -> RowView {
    RowView {
        result,
        variant: Some(
            VariantView {
                name: result.name@,
                tag: tag.tag@,
                full_ref: tag.full_ref@,
                weights_bytes: 0,
                total_bytes: 0,
                estimated_runtime_bytes: 0,
                runtime_margin_pct: 0,
                context_tokens: 0,
                param_billions: tag.param_billions,
                quantization: text::opt_text(tag.quantization),
                is_instruct: tag.is_instruct,
            },
        ),
        fit: Some(FitResult::MacosOnly),
        error: None,
        filtered: None,
    }
}

/// The row for a model's macOS variant, if its tags name one.
pub open spec fn macos_row(
    result: SearchResult,
    reply: Result<Vec<TagInfo>, ResolverError>,
) -> Option<RowView> {
    match reply {
        Ok(tags) => match largest_macos(tags@) {
            Some(i) => Some(macos_row_of(result, tags@[i])),
            None => None,
        },
        Err(_) => None,
    }
}

pub open spec fn opt_row(row: Option<AnnotatedSearchResult>) -> Option<RowView> {
    match row {
        Some(r) => Some(r@),
        None => None,
    }
}

fn tag_is_smaller(a: &TagInfo, b: &TagInfo) -> (r: bool)
    ensures
        r == is_smaller_tag(*a, *b),
{
    let pa = match a.param_billions {
        Some(p) => p,
        None => ParamCount { bits: 0 },
    };
    let pb = match b.param_billions {
        Some(p) => p,
        None => ParamCount { bits: 0 },
    };
    pa.below(pb) || (!pb.below(pa) && text::chars_less(
        text::chars_of(a.tag.as_str()).as_slice(),
        text::chars_of(b.tag.as_str()).as_slice(),
    ))
}

/// Turns the reply to a tag lookup into the row for the macOS variant.
pub fn macos_row_from_tags(
    result: SearchResult,
    reply: Result<Vec<TagInfo>, ResolverError>,
) -> (r: Option<AnnotatedSearchResult>)
    ensures
        opt_row(r) == macos_row(result, reply),
{
    let tags = match reply {
        Ok(tags) => tags,
        Err(_) => {
            return None;
        },
    };
    let mut best: Option<usize> = None;
    for i in 0..tags.len()
        invariant
            match best {
                Some(b) => b < i && largest_macos(tags@.take(i as int)) == Some(b as int),
                None => largest_macos(tags@.take(i as int)) is None,
            },
    {
        assert(tags@.take(i + 1).drop_last() =~= tags@.take(i as int));
        if tags[i].is_macos_only() {
            let larger = match best {
                Some(b) => !tag_is_smaller(&tags[i], &tags[b]),
                None => true,
            };
            if larger {
                best = Some(i);
            }
        }
    }
    assert(tags@.take(tags@.len() as int) =~= tags@);
    match best {
        None => None,
        Some(b) => {
            let tag = &tags[b];
            let variant = ModelVariant {
                name: result.name.clone(),
                tag: tag.tag.clone(),
                full_ref: tag.full_ref.clone(),
                weights_bytes: 0,
                total_bytes: 0,
                estimated_runtime_bytes: 0,
                runtime_margin_pct: 0,
                context_tokens: 0,
                param_billions: tag.param_billions,
                quantization: text::copy_opt(&tag.quantization),
                is_instruct: tag.is_instruct,
            };
            Some(
                AnnotatedSearchResult {
                    result,
                    variant: Some(variant),
                    fit: Some(FitResult::MacosOnly),
                    error: None,
                    filtered: None,
                },
            )
        },
    }
}

/// The registry was asked for the tags of a model and nothing else.
pub open spec fn asked_tags(
    asked: Seq<Lookup>,
    model: Seq<char>,
    reply: Result<Vec<TagInfo>, ResolverError>,
) -> bool {
    asked == seq![Lookup::Tags { model, reply }]
}

/// The row for a model's macOS variant, if it has one. Of several the largest
/// stands for all.
pub fn annotate_macos_only<R: Registry>(registry: &mut R, result: SearchResult) -> (r: Option<
    AnnotatedSearchResult,
>)
    ensures
        old(registry).asked().is_prefix_of(final(registry).asked()),
        exists|reply: Result<Vec<TagInfo>, ResolverError>| #[trigger]
            asked_tags(
                final(registry).asked().skip(old(registry).asked().len() as int),
                result.name@,
                reply,
            ) && opt_row(r) == macos_row(result, reply),
{
    let ghost before = registry.asked();
    let reply = registry.list_tags(result.name.as_str());
    assert(registry.asked().skip(before.len() as int) =~= seq![
        Lookup::Tags { model: result.name@, reply },
    ]);
    assert(asked_tags(registry.asked().skip(before.len() as int), result.name@, reply));
    macos_row_from_tags(result, reply)
}

// ---- rows that run here ----------------------------------------------------

/// The row for a model that was resolved.
pub open spec fn annotated(result: SearchResult, outcome: Result<OutcomeView, ErrorView>) -> RowView {
    match outcome {
        Ok(o) => RowView {
            result,
            variant: Some(o.variant),
            fit: Some(o.fit),
            error: None,
            filtered: None,
        },
        Err(e) => RowView {
            result,
            variant: None,
            fit: None,
            error: Some(e.message()),
            filtered: match e {
                ErrorView::ManifestCloudOnly { .. } => Some(FilteredReason::CloudOnly),
                ErrorView::ManifestPlatformRestricted { .. } => Some(
                    FilteredReason::PlatformRestricted,
                ),
                _ => None,
            },
        },
    }
}

/// Turns the result of a resolution into a row.
pub fn row_from_resolution(
    result: SearchResult,
    resolution: Result<(ModelVariant, FitResult), ResolverError>,
) -> (r: AnnotatedSearchResult)
    ensures
        match resolution {
            Ok((variant, fit)) => r@ == (RowView {
                result,
                variant: Some(variant@),
                fit: Some(fit),
                error: None,
                filtered: None,
            }),
            Err(e) => r@ == annotated(result, Err(e@)),
        },
{
    match resolution {
        Ok((variant, fit)) => AnnotatedSearchResult {
            result,
            variant: Some(variant),
            fit: Some(fit),
            error: None,
            filtered: None,
        },
        Err(err) => {
            let filtered = match &err {
                ResolverError::ManifestCloudOnly { .. } => Some(FilteredReason::CloudOnly),
                ResolverError::ManifestPlatformRestricted { .. } => {
                    Some(FilteredReason::PlatformRestricted)
                },
                _ => None,
            };
            AnnotatedSearchResult {
                result,
                variant: None,
                fit: None,
                error: Some(err.message()),
                filtered,
            }
        },
    }
}

/// Resolves a model that a search found.
pub fn annotate_search_result<R: Registry>(
    registry_client: &mut R,
    result: SearchResult,
    hw: &HardwareProfile,
    opts: &ResolveOpts,
) -> (r: AnnotatedSearchResult)
    ensures
        old(registry_client).asked().is_prefix_of(final(registry_client).asked()),
        exists|outcome: Result<OutcomeView, ErrorView>| #[trigger]
            resolver::is_resolution(
                result.name@,
                *hw,
                *opts,
                final(registry_client).asked().skip(old(registry_client).asked().len() as int),
                outcome,
            ) && r@ == annotated(result, outcome),
{
    let resolution = resolver::resolve_with_registry(
        registry_client,
        result.name.as_str(),
        hw,
        opts,
    );
    row_from_resolution(result, resolution)
}

// ---- a page of rows --------------------------------------------------------

/// The rows for one model: the variant that runs here, and the one for macOS.
pub struct Annotation {
    pub macos: Option<AnnotatedSearchResult>,
    pub normal: AnnotatedSearchResult,
}

pub struct AnnotationView {
    pub macos: Option<RowView>,
    pub normal: RowView,
}

impl View for Annotation {
    type V = AnnotationView;

    open spec fn view(&self) -> AnnotationView {
        AnnotationView { macos: opt_row(self.macos), normal: self.normal@ }
    }
}

pub open spec fn annotation_views(list: Seq<Annotation>) -> Seq<AnnotationView> {
    Seq::new(list.len(), |i: int| list[i]@)
}

/// The rows that run here. A model that is for macOS only is left out: its macOS
/// row stands for it.
pub open spec fn normal_rows(list: Seq<AnnotationView>) -> Seq<RowView>
    decreases list.len(),
{
    if list.len() == 0 {
        Seq::empty()
    } else {
        let head = normal_rows(list.drop_last());
        if list.last().normal.filtered == Some(FilteredReason::PlatformRestricted) {
            head
        } else {
            head.push(list.last().normal)
        }
    }
}

/// The rows for macOS.
pub open spec fn macos_rows(list: Seq<AnnotationView>) -> Seq<RowView>
    decreases list.len(),
{
    if list.len() == 0 {
        Seq::empty()
    } else {
        let head = macos_rows(list.drop_last());
        match list.last().macos {
            Some(row) => head.push(row),
            None => head,
        }
    }
}

/// What a search shows, and how many rows it hides for which reason.
pub struct SearchPage {
    pub rows: Vec<AnnotatedSearchResult>,
    pub cloud_hidden: u64,
    pub macos_hidden: u64,
    pub fit_hidden: u64,
}

pub struct PageView {
    pub rows: Seq<RowView>,
    pub cloud_hidden: nat,
    pub macos_hidden: nat,
    pub fit_hidden: nat,
}

impl View for SearchPage {
    type V = PageView;

    open spec fn view(&self) -> PageView {
        PageView {
            rows: row_views(self.rows@),
            cloud_hidden: self.cloud_hidden as nat,
            macos_hidden: self.macos_hidden as nat,
            fit_hidden: self.fit_hidden as nat,
        }
    }
}

/// The page for the annotated models. Rows for macOS are shown on macOS, and
/// anywhere with `all`.
pub open spec fn page_of(
    list: Seq<AnnotationView>,
    fit_filter: bool,
    all: bool,
    on_macos: bool,
    limit: nat,
) -> PageView {
    let normal = normal_rows(list);
    let macos = macos_rows(list);
    let show_macos = on_macos || all;
    PageView {
        rows: capped(
            if all {
                normal
            } else {
                staying(normal, |row: RowView| stays(row, fit_filter))
            },
            if show_macos {
                macos
            } else {
                Seq::empty()
            },
            limit,
        ),
        cloud_hidden: if all {
            0
        } else {
            count(normal, |row: RowView| is_cloud_row(row))
        },
        macos_hidden: if show_macos {
            0
        } else {
            macos.len()
        },
        fit_hidden: if all || !fit_filter {
            0
        } else {
            count(normal, |row: RowView| !is_cloud_row(row) && is_nonfit_row(row))
        },
    }
}

proof fn lemma_views_of_staying(rows: Seq<AnnotatedSearchResult>, fit_filter: bool)
    ensures
        row_views(staying(rows, stays_pred(fit_filter))) == staying(
            row_views(rows),
            |row: RowView| stays(row, fit_filter),
        ),
        count(rows, cloud_pred()) == count(row_views(rows), |row: RowView| is_cloud_row(row)),
        count(rows, nonfit_pred()) == count(
            row_views(rows),
            |row: RowView| !is_cloud_row(row) && is_nonfit_row(row),
        ),
    decreases rows.len(),
{
    if rows.len() > 0 {
        lemma_views_of_staying(rows.drop_last(), fit_filter);
        assert(row_views(rows).drop_last() =~= row_views(rows.drop_last()));
        let head = staying(rows.drop_last(), stays_pred(fit_filter));
        assert(row_views(head.push(rows.last())) =~= row_views(head).push(rows.last()@));
    } else {
        assert(row_views(rows) =~= Seq::<RowView>::empty());
        assert(row_views(staying(rows, stays_pred(fit_filter))) =~= Seq::<RowView>::empty());
    }
}

/// Puts the rows of the annotated models together.
pub fn assemble_page(
    annotations: Vec<Annotation>,
    fit_filter: bool,
    all: bool,
    on_macos: bool,
    limit: usize,
) -> (r: SearchPage)
    ensures
        r@ == page_of(annotation_views(annotations@), fit_filter, all, on_macos, limit as nat),
{
    let ghost list = annotation_views(annotations@);
    let show_macos = on_macos || all;
    let mut normal: Vec<AnnotatedSearchResult> = Vec::new();
    let mut macos: Vec<AnnotatedSearchResult> = Vec::new();
    let mut macos_hidden: u64 = 0;
    assert(annotations.len() <= usize::MAX);
    assert(row_views(normal@) =~= normal_rows(list.take(0)));
    assert(row_views(macos@) =~= Seq::<RowView>::empty());
    for annotation in it: annotations
        invariant
            it.seq() == annotations@,
            list == annotation_views(annotations@),
            annotations@.len() <= usize::MAX,
            row_views(normal@) == normal_rows(list.take(it.index())),
            row_views(macos@) == (if show_macos {
                macos_rows(list.take(it.index()))
            } else {
                Seq::empty()
            }),
            macos_hidden == (if show_macos {
                0
            } else {
                macos_rows(list.take(it.index())).len()
            }),
            macos_hidden <= it.index(),
    {
        let ghost i = it.index();
        assert(list.take(i + 1).drop_last() =~= list.take(i));
        assert(list[i] == annotation@);
        let ghost before_normal = row_views(normal@);
        let ghost before_macos = row_views(macos@);
        let restricted = match annotation.normal.filtered {
            Some(FilteredReason::PlatformRestricted) => true,
            _ => false,
        };
        if !restricted {
            normal.push(annotation.normal);
            assert(row_views(normal@) =~= before_normal.push(annotation.normal@));
        }
        if let Some(row) = annotation.macos {
            if show_macos {
                macos.push(row);
                assert(row_views(macos@) =~= before_macos.push(row@));
            } else {
                macos_hidden = macos_hidden + 1;
            }
        }
    }
    assert(list.take(list.len() as int) =~= list);
    let ghost unfiltered = normal@;
    proof {
        lemma_views_of_staying(unfiltered, fit_filter);
    }
    let (cloud_hidden, fit_hidden) = filter_search_rows(&mut normal, fit_filter, all);
    let ghost kept = normal@;
    let rows = cap_rows(normal, macos, limit);
    assert(row_views(rows@) =~= capped(row_views(kept), row_views(macos@), limit as nat));
    SearchPage { rows, cloud_hidden, macos_hidden, fit_hidden }
}

// ---- the searches ----------------------------------------------------------

/// A run of lookups, taken as one.
pub open spec fn all_lookups(segments: Seq<Seq<Lookup>>) -> Seq<Lookup>
    decreases segments.len(),
{
    if segments.len() == 0 {
        Seq::empty()
    } else {
        all_lookups(segments.drop_last()) + segments.last()
    }
}

/// The registry was asked for `asked` to resolve a found model, and `row` is the
/// result.
pub open spec fn is_resolved_row(
    result: SearchResult,
    hw: HardwareProfile,
    opts: ResolveOpts,
    asked: Seq<Lookup>,
    row: RowView,
) -> bool {
    exists|outcome: Result<OutcomeView, ErrorView>| #[trigger]
        resolver::is_resolution(result.name@, hw, opts, asked, outcome) && row == annotated(
            result,
            outcome,
        )
}

/// The registry was asked for `asked` to annotate a found model. Only a model
/// whose name answers the query gets a row for its macOS variant.
pub open spec fn is_annotation(
    query: Seq<char>,
    result: SearchResult,
    hw: HardwareProfile,
    opts: ResolveOpts,
    asked: Seq<Lookup>,
    a: AnnotationView,
) -> bool {
    if registry::relevance(query, result.name@) > 0 {
        &&& asked.len() >= 1
        &&& asked[0] matches Lookup::Tags { model, reply } && model == result.name@ && a.macos
            == macos_row(result, reply)
        &&& is_resolved_row(result, hw, opts, asked.skip(1), a.normal)
    } else {
        a.macos is None && is_resolved_row(result, hw, opts, asked, a.normal)
    }
}

/// One model after the other was annotated.
pub open spec fn are_annotations(
    query: Seq<char>,
    results: Seq<SearchResult>,
    hw: HardwareProfile,
    opts: ResolveOpts,
    segments: Seq<Seq<Lookup>>,
    list: Seq<AnnotationView>,
) -> bool {
    &&& segments.len() == results.len()
    &&& list.len() == results.len()
    &&& forall|i: int|
        0 <= i < results.len() ==> #[trigger] is_annotation(
            query,
            results[i],
            hw,
            opts,
            segments[i],
            list[i],
        )
}

fn annotate_one<R: Registry>(
    registry: &mut R,
    query: &str,
    result: &SearchResult,
    hw: &HardwareProfile,
    opts: &ResolveOpts,
) -> (r: Annotation)
    ensures
        old(registry).asked().is_prefix_of(final(registry).asked()),
        is_annotation(
            query@,
            *result,
            *hw,
            *opts,
            final(registry).asked().skip(old(registry).asked().len() as int),
            r@,
        ),
{
    let ghost before = registry.asked();
    if registry::relevance_score(query, result.name.as_str()) > 0 {
        let macos = annotate_macos_only(registry, result.clone());
        let ghost middle = registry.asked();
        let normal = annotate_search_result(registry, result.clone(), hw, opts);
        proof {
            let asked = registry.asked().skip(before.len() as int);
            let reply = choose|reply: Result<Vec<TagInfo>, ResolverError>| #[trigger]
                asked_tags(middle.skip(before.len() as int), result.name@, reply) && opt_row(macos)
                    == macos_row(*result, reply);
            assert(asked_tags(middle.skip(before.len() as int), result.name@, reply));
            assert(middle.skip(before.len() as int).len() == 1);
            assert(asked[0] == middle.skip(before.len() as int)[0]);
            assert(asked.skip(1) =~= registry.asked().skip(middle.len() as int));
        }
        Annotation { macos, normal }
    } else {
        let normal = annotate_search_result(registry, result.clone(), hw, opts);
        Annotation { macos: None, normal }
    }
}

fn annotate_results<R: Registry>(
    registry: &mut R,
    query: &str,
    results: &Vec<SearchResult>,
    hw: &HardwareProfile,
    opts: &ResolveOpts,
) -> (r: Vec<Annotation>)
    ensures
        exists|segments: Seq<Seq<Lookup>>| #[trigger]
            are_annotations(query@, results@, *hw, *opts, segments, annotation_views(r@))
                && final(registry).asked() == old(registry).asked() + all_lookups(segments),
{
    let ghost before = registry.asked();
    let ghost mut segments: Seq<Seq<Lookup>> = Seq::empty();
    let mut list: Vec<Annotation> = Vec::new();
    assert(before + all_lookups(segments) =~= before);
    for i in 0..results.len()
        invariant
            before == old(registry).asked(),
            registry.asked() == before + all_lookups(segments),
            are_annotations(
                query@,
                results@.take(i as int),
                *hw,
                *opts,
                segments,
                annotation_views(list@),
            ),
    {
        let ghost so_far = registry.asked();
        let ghost views = annotation_views(list@);
        let annotation = annotate_one(registry, query, &results[i], hw, opts);
        list.push(annotation);
        proof {
            let segment = registry.asked().skip(so_far.len() as int);
            let longer = segments.push(segment);
            assert(longer.drop_last() =~= segments);
            assert(longer.last() == segment);
            assert(registry.asked() =~= so_far + segment);
            assert(registry.asked() =~= before + (all_lookups(segments) + segment));
            assert(annotation_views(list@) =~= views.push(annotation@));
            assert forall|j: int| 0 <= j < i + 1 implies #[trigger] is_annotation(
                query@,
                results@.take(i + 1)[j],
                *hw,
                *opts,
                longer[j],
                annotation_views(list@)[j],
            ) by {
                if j < i {
                    assert(is_annotation(
                        query@,
                        results@.take(i as int)[j],
                        *hw,
                        *opts,
                        segments[j],
                        views[j],
                    ));
                }
            }
            segments = longer;
        }
    }
    assert(results@.take(results@.len() as int) =~= results@);
    list
}

/// The results that are looked at: the most relevant, and a few more than are
/// shown, for those that will be hidden.
pub open spec fn considered(results: Seq<SearchResult>, query: Seq<char>, limit: nat) -> Seq<
    SearchResult,
> {
    let ranked = order::sorted(results, registry::relevance_order(query));
    if limit + 5 < ranked.len() {
        ranked.take(limit as int + 5)
    } else {
        ranked
    }
}

/// A search with a verdict for every model: each of the most relevant results is
/// resolved, and the rows are put together.
pub fn search_rows<R: Registry>(
    registry: &mut R,
    query: &str,
    limit: usize,
    hw: &HardwareProfile,
    opts: &ResolveOpts,
    results: Vec<SearchResult>,
    on_macos: bool,
) -> (r: SearchPage)
    ensures
        exists|segments: Seq<Seq<Lookup>>, list: Seq<AnnotationView>| #[trigger]
            are_annotations(
                query@,
                considered(results@, query@, limit as nat),
                *hw,
                *opts,
                segments,
                list,
            ) && final(registry).asked() == old(registry).asked() + all_lookups(segments) && r@
                == page_of(list, opts.fit_filter, opts.all, on_macos, limit as nat),
{
    let mut ranked = registry::rank_search_results(results, query);
    ranked.truncate(limit.saturating_add(5));
    assert(ranked@ =~= considered(results@, query@, limit as nat));
    let annotations = annotate_results(registry, query, &ranked, hw, opts);
    assemble_page(annotations, opts.fit_filter, opts.all, on_macos, limit)
}

/// The results whose name answers the query.
pub open spec fn relevant(results: Seq<SearchResult>, query: Seq<char>) -> Seq<SearchResult> {
    staying(results, |result: SearchResult| registry::relevance(query, result.name@) > 0)
}

/// The rows that there are, in order.
pub open spec fn present(rows: Seq<Option<RowView>>) -> Seq<RowView>
    decreases rows.len(),
{
    if rows.len() == 0 {
        Seq::empty()
    } else {
        match rows.last() {
            Some(row) => present(rows.drop_last()).push(row),
            None => present(rows.drop_last()),
        }
    }
}

/// The registry was asked for the tags of each of the models, in order.
pub open spec fn asked_all_tags(asked: Seq<Lookup>, results: Seq<SearchResult>) -> bool {
    &&& asked.len() == results.len()
    &&& forall|i: int|
        0 <= i < asked.len() ==> (#[trigger] asked[i] matches Lookup::Tags { model, .. } && model
            == results[i].name@)
}

/// What the replies say of the models' macOS variants.
pub open spec fn macos_replies(results: Seq<SearchResult>, asked: Seq<Lookup>) -> Seq<
    Option<RowView>,
> {
    Seq::new(asked.len(), |i: int| macos_row(results[i], asked[i]->Tags_reply))
}

pub open spec fn first_rows(rows: Seq<RowView>, limit: nat) -> Seq<RowView> {
    if limit < rows.len() {
        rows.take(limit as int)
    } else {
        rows
    }
}

/// A search for macOS variants only: those of the models whose name answers the
/// query, the most relevant first.
pub fn macos_only_rows<R: Registry>(
    registry: &mut R,
    query: &str,
    limit: usize,
    results: Vec<SearchResult>,
) -> (r: Vec<AnnotatedSearchResult>)
    ensures
        ({
            let models = relevant(
                order::sorted(results@, registry::relevance_order(query@)),
                query@,
            );
            let asked = final(registry).asked().skip(old(registry).asked().len() as int);
            &&& old(registry).asked().is_prefix_of(final(registry).asked())
            &&& asked_all_tags(asked, models)
            &&& row_views(r@) == first_rows(present(macos_replies(models, asked)), limit as nat)
        }),
{
    let ranked = registry::rank_search_results(results, query);
    let ghost keep = |result: SearchResult| registry::relevance(query@, result.name@) > 0;
    let ghost before = registry.asked();
    let ghost mut asked: Seq<Lookup> = Seq::empty();
    let ghost mut models: Seq<SearchResult> = Seq::empty();
    let mut rows: Vec<AnnotatedSearchResult> = Vec::new();
    assert(before + asked =~= before);
    assert(models =~= staying(ranked@.take(0), keep));
    assert(row_views(rows@) =~= present(macos_replies(models, asked)));
    for i in 0..ranked.len()
        invariant
            before == old(registry).asked(),
            keep == (|result: SearchResult| registry::relevance(query@, result.name@) > 0),
            registry.asked() == before + asked,
            models == staying(ranked@.take(i as int), keep),
            asked_all_tags(asked, models),
            row_views(rows@) == present(macos_replies(models, asked)),
    {
        assert(ranked@.take(i + 1).drop_last() =~= ranked@.take(i as int));
        let result = &ranked[i];
        if registry::relevance_score(query, result.name.as_str()) > 0 {
            let ghost so_far = registry.asked();
            let ghost views = row_views(rows@);
            let row = annotate_macos_only(registry, result.clone());
            proof {
                let reply = choose|reply: Result<Vec<TagInfo>, ResolverError>| #[trigger]
                    asked_tags(
                        registry.asked().skip(so_far.len() as int),
                        result.name@,
                        reply,
                    ) && opt_row(row) == macos_row(*result, reply);
                let lookup = Lookup::Tags { model: result.name@, reply };
                assert(asked_tags(
                    registry.asked().skip(so_far.len() as int),
                    result.name@,
                    reply,
                ));
                let old_replies = macos_replies(models, asked);
                asked = asked.push(lookup);
                models = models.push(*result);
                assert(registry.asked() =~= so_far + seq![lookup]);
                assert(registry.asked() =~= before + asked);
                assert(macos_replies(models, asked) =~= old_replies.push(opt_row(row)));
                assert(macos_replies(models, asked).drop_last() =~= old_replies);
            }
            if let Some(row) = row {
                rows.push(row);
                assert(row_views(rows@) =~= views.push(row@));
            }
        }
    }
    assert(ranked@.take(ranked@.len() as int) =~= ranked@);
    assert(registry.asked().skip(before.len() as int) =~= asked);
    let ghost views = row_views(rows@);
    rows.truncate(limit);
    assert(row_views(rows@) =~= first_rows(views, limit as nat));
    rows
}

// ---- the quick browse ------------------------------------------------------

/// The position of the tag with the least (or greatest) size hint; of equals the
/// first.
pub open spec fn extreme_size(tags: Seq<TagInfo>, greatest: bool) -> Option<int>
    decreases tags.len(),
{
    if tags.len() == 0 {
        None
    } else {
        let last = tags.len() - 1;
        match (extreme_size(tags.drop_last(), greatest), tags[last].approx_bytes()) {
            (Some(i), Some(bytes)) => {
                let held = tags[i].approx_bytes()->Some_0;
                if (greatest && bytes > held) || (!greatest && bytes < held) {
                    Some(last)
                } else {
                    Some(i)
                }
            },
            (None, Some(_)) => Some(last),
            (best, None) => best,
        }
    }
}

/// The size hints of a model's tags, from the smallest to the largest.
pub open spec fn size_range(tags: Seq<TagInfo>) -> Option<Seq<char>> {
    match (extreme_size(tags, false), extreme_size(tags, true)) {
        (Some(lo), Some(hi)) => {
            let least = tags[lo].approx_size->Some_0@;
            let greatest = tags[hi].approx_size->Some_0@;
            Some(
                if tags[lo].approx_bytes() == tags[hi].approx_bytes() {
                    least
                } else {
                    least + " - "@ + greatest
                },
            )
        },
        _ => None,
    }
}

fn find_extreme_size(tags: &Vec<TagInfo>, greatest: bool) -> (r: Option<usize>)
    ensures
        match r {
            Some(i) => extreme_size(tags@, greatest) == Some(i as int) && i < tags@.len()
                && tags@[i as int].approx_bytes() is Some,
            None => extreme_size(tags@, greatest) is None,
        },
{
    let mut best: Option<(usize, u64)> = None;
    for i in 0..tags.len()
        invariant
            match best {
                Some((b, held)) => b < i && extreme_size(tags@.take(i as int), greatest) == Some(
                    b as int,
                ) && tags@[b as int].approx_bytes() == Some(held),
                None => extreme_size(tags@.take(i as int), greatest) is None,
            },
    {
        assert(tags@.take(i + 1).drop_last() =~= tags@.take(i as int));
        if let Some(bytes) = tags[i].approx_size_bytes() {
            let better = match best {
                Some((_, held)) => (greatest && bytes > held) || (!greatest && bytes < held),
                None => true,
            };
            if better {
                best = Some((i, bytes));
            }
        }
    }
    assert(tags@.take(tags@.len() as int) =~= tags@);
    match best {
        Some((b, _)) => Some(b),
        None => None,
    }
}

fn approx_label(tag: &TagInfo) -> (r: String)
    requires
        tag.approx_size is Some,
    ensures
        r@ == tag.approx_size->Some_0@,
{
    match &tag.approx_size {
        Some(label) => label.clone(),
        None => String::new(),
    }
}

/// The range of a model's download sizes, as its tag page gives them.
pub fn size_range_label(tags: &Vec<TagInfo>) -> (r: Option<String>)
    ensures
        text::opt_text(r) == size_range(tags@),
{
    match (find_extreme_size(tags, false), find_extreme_size(tags, true)) {
        (Some(lo), Some(hi)) => {
            let least = approx_label(&tags[lo]);
            let same = match (tags[lo].approx_size_bytes(), tags[hi].approx_size_bytes()) {
                (Some(a), Some(b)) => a == b,
                _ => false,
            };
            if same {
                Some(least)
            } else {
                Some(least.concat(" - ").concat(approx_label(&tags[hi]).as_str()))
            }
        },
        _ => None,
    }
}

/// What the reply to a tag lookup says of a model's size.
pub open spec fn size_from_reply(reply: Result<Vec<TagInfo>, ResolverError>) -> Option<Seq<char>> {
    match reply {
        Ok(tags) => size_range(tags@),
        Err(_) => None,
    }
}

/// The models and sizes that a quick browse shows.
pub open spec fn browsed(results: Seq<SearchResult>, asked: Seq<Lookup>) -> Seq<
    (SearchResult, Option<Seq<char>>),
> {
    Seq::new(results.len(), |i: int| (results[i], size_from_reply(asked[i]->Tags_reply)))
}

pub open spec fn browse_views(rows: Seq<(SearchResult, Option<String>)>) -> Seq<
    (SearchResult, Option<Seq<char>>),
> {
    Seq::new(rows.len(), |i: int| (rows[i].0, text::opt_text(rows[i].1)))
}

/// A browse without manifests: the most relevant results, each with the size
/// range of its tag page.
pub fn library_rows<R: Registry>(
    registry: &mut R,
    query: &str,
    limit: usize,
    results: Vec<SearchResult>,
) -> (r: Vec<(SearchResult, Option<String>)>)
    ensures
        ({
            let ranked = order::sorted(results@, registry::relevance_order(query@));
            let models = if limit < ranked.len() {
                ranked.take(limit as int)
            } else {
                ranked
            };
            let asked = final(registry).asked().skip(old(registry).asked().len() as int);
            &&& old(registry).asked().is_prefix_of(final(registry).asked())
            &&& asked_all_tags(asked, models)
            &&& browse_views(r@) == browsed(models, asked)
        }),
{
    let mut models = registry::rank_search_results(results, query);
    models.truncate(limit);
    let ghost before = registry.asked();
    let ghost mut asked: Seq<Lookup> = Seq::empty();
    let mut rows: Vec<(SearchResult, Option<String>)> = Vec::new();
    assert(before + asked =~= before);
    for i in 0..models.len()
        invariant
            before == old(registry).asked(),
            registry.asked() == before + asked,
            asked_all_tags(asked, models@.take(i as int)),
            browse_views(rows@) =~= browsed(models@.take(i as int), asked),
    {
        let ghost so_far = registry.asked();
        let ghost views = browse_views(rows@);
        let reply = registry.list_tags(models[i].name.as_str());
        proof {
            asked = asked.push(Lookup::Tags { model: models@[i as int].name@, reply });
            assert(registry.asked() =~= before + asked);
        }
        let size = match &reply {
            Ok(tags) => size_range_label(tags),
            Err(_) => None,
        };
        let row = (models[i].clone(), size);
        rows.push(row);
        assert(browse_views(rows@) =~= views.push((row.0, text::opt_text(row.1))));
    }
    assert(models@.take(models@.len() as int) =~= models@);
    assert(registry.asked().skip(before.len() as int) =~= asked);
    rows
}

// ---- laws ------------------------------------------------------------------

/// A page never holds more rows than were asked for; rows for macOS come last,
/// and as many of them stay as there is room for.
pub proof fn law_macos_rows_keep_their_places<T>(normal: Seq<T>, macos: Seq<T>, limit: nat)
    ensures
        ({
            let rows = capped(normal, macos, limit);
            let keep = if macos.len() < limit {
                macos.len()
            } else {
                limit
            };
            &&& rows.len() <= limit
            &&& rows.len() >= keep
            &&& normal.len() + macos.len() <= limit ==> rows.len() == normal.len() + macos.len()
            &&& normal.len() + macos.len() > limit ==> rows.len() == limit
            &&& rows.skip(rows.len() - keep) == macos.take(keep as int)
            &&& rows.take(rows.len() - keep) == normal.take(rows.len() - keep)
        }),
{
    let rows = capped(normal, macos, limit);
    let keep = if macos.len() < limit {
        macos.len()
    } else {
        limit
    };
    assert(rows.skip(rows.len() - keep) =~= macos.take(keep as int));
    assert(rows.take(rows.len() - keep) =~= normal.take(rows.len() - keep));
}

/// No page is longer than its limit.
pub proof fn law_pages_stay_within_the_limit(
    list: Seq<AnnotationView>,
    fit_filter: bool,
    all: bool,
    on_macos: bool,
    limit: nat,
)
    ensures
        page_of(list, fit_filter, all, on_macos, limit).rows.len() <= limit,
{
}

/// With `all` nothing is hidden for a reason.
pub proof fn law_all_hides_nothing(
    list: Seq<AnnotationView>,
    fit_filter: bool,
    on_macos: bool,
    limit: nat,
)
    ensures
        ({
            let page = page_of(list, fit_filter, true, on_macos, limit);
            &&& page.cloud_hidden == 0
            &&& page.macos_hidden == 0
            &&& page.fit_hidden == 0
            &&& limit >= list.len() * 2 ==> page.rows == normal_rows(list) + macos_rows(list)
        }),
{
    lemma_row_counts(list);
    let page = page_of(list, fit_filter, true, on_macos, limit);
    if limit >= list.len() * 2 {
        assert(page.rows =~= normal_rows(list) + macos_rows(list));
    }
}

proof fn lemma_row_counts(list: Seq<AnnotationView>)
    ensures
        normal_rows(list).len() <= list.len(),
        macos_rows(list).len() <= list.len(),
    decreases list.len(),
{
    if list.len() > 0 {
        lemma_row_counts(list.drop_last());
    }
}

/// What stays passes the test, and keeps its order.
pub proof fn law_kept_rows_pass<T>(rows: Seq<T>, keep: spec_fn(T) -> bool, i: int)
    requires
        0 <= i < staying(rows, keep).len(),
    ensures
        keep(staying(rows, keep)[i]),
        rows.contains(staying(rows, keep)[i]),
    decreases rows.len(),
{
    if rows.len() > 0 {
        let head = staying(rows.drop_last(), keep);
        if i < head.len() {
            law_kept_rows_pass(rows.drop_last(), keep, i);
            let j = choose|j: int| 0 <= j < rows.drop_last().len() && rows.drop_last()[j] == head[i];
            assert(rows[j] == head[i]);
        } else {
            assert(rows[rows.len() - 1] == rows.last());
        }
    }
}

/// Every runnable row is shown or counted as hidden.
pub proof fn law_hidden_rows_are_counted(rows: Seq<RowView>, fit_filter: bool)
    ensures
        rows.len() == staying(rows, |row: RowView| stays(row, fit_filter)).len() + count(
            rows,
            |row: RowView| is_cloud_row(row),
        ) + (if fit_filter {
            count(rows, |row: RowView| !is_cloud_row(row) && is_nonfit_row(row))
        } else {
            0
        }),
    decreases rows.len(),
{
    if rows.len() > 0 {
        law_hidden_rows_are_counted(rows.drop_last(), fit_filter);
    }
}

/// With `fit_filter` no row for a model that was sized and does not fit is left
/// among those that run here.
pub proof fn law_fit_filter_leaves_no_nonfit(rows: Seq<RowView>, i: int)
    requires
        0 <= i < staying(rows, |row: RowView| stays(row, true)).len(),
    ensures
        !is_nonfit_row(staying(rows, |row: RowView| stays(row, true))[i]),
        !is_cloud_row(staying(rows, |row: RowView| stays(row, true))[i]),
{
    law_kept_rows_pass(rows, |row: RowView| stays(row, true), i);
}

/// The macOS variants among the tags can be put in order. Only counts that are not
/// numbers stand in the way: they tie with all others and can close a circle.
pub open spec fn macos_tags_are_ordered(tags: Seq<TagInfo>) -> bool {
    forall|i: int, j: int, k: int|
        #![trigger is_smaller_tag(tags[i], tags[k]), is_smaller_tag(tags[j], tags[k])]
        0 <= i < tags.len() && 0 <= j < tags.len() && 0 <= k < tags.len()
            && types::macos_only_text(tags[i].tag@) && types::macos_only_text(tags[j].tag@)
            && types::macos_only_text(tags[k].tag@) && is_smaller_tag(tags[i], tags[k])
            ==> is_smaller_tag(tags[i], tags[j]) || is_smaller_tag(tags[j], tags[k])
}

/// Counts that are numbers, or unknown, put the macOS variants in order.
pub proof fn law_macos_numbers_are_ordered(tags: Seq<TagInfo>)
    requires
        rank::counts_are_numbers(tags),
    ensures
        macos_tags_are_ordered(tags),
{
    assert forall|i: int, j: int, k: int|
        #![trigger is_smaller_tag(tags[i], tags[k]), is_smaller_tag(tags[j], tags[k])]
        0 <= i < tags.len() && 0 <= j < tags.len() && 0 <= k < tags.len() && is_smaller_tag(
            tags[i],
            tags[k],
        ) implies is_smaller_tag(tags[i], tags[j]) || is_smaller_tag(tags[j], tags[k]) by {
        let a = tags[i].tag@;
        let b = tags[j].tag@;
        let c = tags[k].tag@;
        assert(params_of(tags[i]).is_number() && params_of(tags[j]).is_number() && params_of(
            tags[k],
        ).is_number());
        text::lemma_text_less_total(a, b);
        text::lemma_text_less_total(b, c);
        if text::text_less(b, a) && text::text_less(a, c) {
            text::lemma_text_less_transitive(b, a, c);
        }
    }
}

/// The variant that stands for a model's macOS variants is one of them, and none
/// is larger wherever they can be put in order at all.
pub proof fn law_macos_row_shows_the_largest(tags: Seq<TagInfo>, j: int)
    requires
        0 <= j < tags.len(),
        types::macos_only_text(tags[j].tag@),
    ensures
        largest_macos(tags) matches Some(i) && 0 <= i < tags.len() && types::macos_only_text(
            tags[i].tag@,
        ) && (macos_tags_are_ordered(tags) ==> !is_smaller_tag(tags[i], tags[j])),
    decreases tags.len(),
{
    let rest = tags.drop_last();
    let last = tags.len() - 1;
    assert(forall|i: int| 0 <= i < rest.len() ==> rest[i] == tags[i]);
    lemma_largest_is_macos(rest);
    lemma_largest_is_macos(tags);
    if j < last {
        law_macos_row_shows_the_largest(rest, j);
        let i = largest_macos(rest)->Some_0;
        if macos_tags_are_ordered(tags) {
            assert(macos_tags_are_ordered(rest));
            assert(!is_smaller_tag(tags[i], tags[j]));
            if types::macos_only_text(tags[last].tag@) && is_smaller_tag(tags[last], tags[j]) {
                assert(is_smaller_tag(tags[last], tags[i]) || is_smaller_tag(tags[i], tags[j]));
            }
        }
    } else {
        text::lemma_text_less_irreflexive(tags[j].tag@);
        if let Some(i) = largest_macos(rest) {
            lemma_smaller_tag_is_one_way(tags[j], tags[i]);
        }
    }
}

proof fn lemma_largest_is_macos(tags: Seq<TagInfo>)
    ensures
        largest_macos(tags) matches Some(i) ==> 0 <= i < tags.len() && types::macos_only_text(
            tags[i].tag@,
        ),
    decreases tags.len(),
{
    if tags.len() > 0 {
        lemma_largest_is_macos(tags.drop_last());
    }
}

proof fn lemma_smaller_tag_is_one_way(a: TagInfo, b: TagInfo)
    ensures
        is_smaller_tag(a, b) ==> !is_smaller_tag(b, a),
{
    if text::text_less(a.tag@, b.tag@) && text::text_less(b.tag@, a.tag@) {
        text::lemma_text_less_transitive(a.tag@, b.tag@, a.tag@);
        text::lemma_text_less_irreflexive(a.tag@);
    }
}

// ---- the page in full ------------------------------------------------------

/// The results that are looked at are the first of the ranking: five more than are
/// shown, or all there are.
pub proof fn law_five_more_are_looked_at(results: Seq<SearchResult>, query: Seq<char>, limit: nat)
    ensures
        ({
            let ranked = order::sorted(results, registry::relevance_order(query));
            let looked_at = considered(results, query, limit);
            &&& limit + 5 <= results.len() ==> looked_at.len() == limit + 5
            &&& limit + 5 > results.len() ==> looked_at.len() == results.len()
            &&& forall|i: int|
                0 <= i < looked_at.len() ==> #[trigger] looked_at[i] == ranked[i]
        }),
{
    order::lemma_sorted_keeps(results, registry::relevance_order(query));
}

/// The model was sized and does not fit.
pub open spec fn found_too_large(row: RowView) -> bool {
    row.fit matches Some(fit) && (fit is DoesNotFit || fit is InsufficientDisk || fit is MacosOnly)
}

/// The row of a model is shown if there is room: never one that stands in for a model
/// for macOS only, and, unless everything is asked for, none of a model without local
/// weights and, where only fits are asked for, none of one that is too large.
pub open spec fn is_shown(row: RowView, fit_filter: bool, all: bool) -> bool {
    &&& row.filtered != Some(FilteredReason::PlatformRestricted)
    &&& all || (row.filtered != Some(FilteredReason::CloudOnly) && !(fit_filter && found_too_large(
        row,
    )))
}

/// `places` names positions below `n`, each above the one before.
pub open spec fn climbs(places: Seq<int>, n: nat) -> bool {
    &&& forall|k: int| 0 <= k < places.len() ==> 0 <= #[trigger] places[k] < n
    &&& forall|j: int, k: int| 0 <= j < k < places.len() ==> places[j] < places[k]
}

proof fn lemma_staying_places<T>(rows: Seq<T>, keep: spec_fn(T) -> bool) -> (places: Seq<int>)
    ensures
        places.len() == staying(rows, keep).len(),
        climbs(places, rows.len()),
        forall|k: int|
            0 <= k < places.len() ==> #[trigger] staying(rows, keep)[k] == rows[places[k]],
        forall|i: int| 0 <= i < rows.len() ==> (keep(#[trigger] rows[i]) <==> places.contains(i)),
    decreases rows.len(),
{
    if rows.len() == 0 {
        Seq::empty()
    } else {
        let rest = rows.drop_last();
        let last = rows.len() - 1;
        let before = lemma_staying_places(rest, keep);
        let head = staying(rest, keep);
        let places = if keep(rows.last()) {
            before.push(last)
        } else {
            before
        };
        assert forall|k: int| 0 <= k < places.len() implies #[trigger] staying(rows, keep)[k]
            == rows[places[k]] by {
            if k < before.len() {
                assert(head[k] == rest[before[k]]);
                assert(places[k] == before[k]);
            }
        }
        assert forall|i: int| 0 <= i < rows.len() implies (keep(#[trigger] rows[i])
            <==> places.contains(i)) by {
            if i < last {
                assert(rest[i] == rows[i]);
                if before.contains(i) {
                    let k = choose|k: int| 0 <= k < before.len() && before[k] == i;
                    assert(places[k] == i);
                }
                if places.contains(i) {
                    let k = choose|k: int| 0 <= k < places.len() && places[k] == i;
                    assert(before[k] == i);
                }
            } else {
                if keep(rows.last()) {
                    assert(places[before.len() as int] == last);
                } else if places.contains(i) {
                    let k = choose|k: int| 0 <= k < places.len() && places[k] == i;
                    assert(before[k] < last);
                }
            }
        }
        places
    }
}

spec fn runs_here(a: AnnotationView) -> bool {
    a.normal.filtered != Some(FilteredReason::PlatformRestricted)
}

proof fn lemma_normal_rows(list: Seq<AnnotationView>)
    ensures
        normal_rows(list) == staying(list, |a: AnnotationView| runs_here(a)).map_values(
            |a: AnnotationView| a.normal,
        ),
    decreases list.len(),
{
    let keep = |a: AnnotationView| runs_here(a);
    let row = |a: AnnotationView| a.normal;
    if list.len() > 0 {
        lemma_normal_rows(list.drop_last());
        let head = staying(list.drop_last(), keep);
        assert(head.push(list.last()).map_values(row) =~= head.map_values(row).push(
            list.last().normal,
        ));
    } else {
        assert(staying(list, keep).map_values(row) =~= Seq::<RowView>::empty());
    }
}

/// The rows that run here and stay.
spec fn kept_rows(list: Seq<AnnotationView>, fit_filter: bool, all: bool) -> Seq<RowView> {
    if all {
        normal_rows(list)
    } else {
        staying(normal_rows(list), |row: RowView| stays(row, fit_filter))
    }
}

proof fn lemma_shown_places(list: Seq<AnnotationView>, fit_filter: bool, all: bool) -> (places: Seq<
    int,
>)
    ensures
        places.len() == kept_rows(list, fit_filter, all).len(),
        climbs(places, list.len()),
        forall|k: int|
            0 <= k < places.len() ==> #[trigger] kept_rows(list, fit_filter, all)[k]
                == list[places[k]].normal,
        forall|i: int|
            0 <= i < list.len() ==> (is_shown((#[trigger] list[i]).normal, fit_filter, all)
                <==> places.contains(i)),
{
    let normal = normal_rows(list);
    let here = |a: AnnotationView| runs_here(a);
    let keep = |row: RowView| stays(row, fit_filter);
    let kept = kept_rows(list, fit_filter, all);
    lemma_normal_rows(list);
    let outer = lemma_staying_places(list, here);
    assert forall|k: int| 0 <= k < outer.len() implies #[trigger] normal[k] == list[outer[k]].normal by {
        assert(staying(list, here)[k] == list[outer[k]]);
    }
    if all {
        assert forall|i: int| 0 <= i < list.len() implies (is_shown(
            (#[trigger] list[i]).normal,
            fit_filter,
            all,
        ) <==> outer.contains(i)) by {
            assert(here(list[i]) <==> outer.contains(i));
        }
        outer
    } else {
        let inner = lemma_staying_places(normal, keep);
        let places = Seq::new(inner.len(), |k: int| outer[inner[k]]);
        assert forall|k: int| 0 <= k < places.len() implies 0 <= #[trigger] places[k] < list.len()
            && kept[k] == list[places[k]].normal by {
            assert(kept[k] == normal[inner[k]]);
            assert(0 <= inner[k] < normal.len());
            assert(normal[inner[k]] == list[outer[inner[k]]].normal);
        }
        assert forall|j: int, k: int| 0 <= j < k < places.len() implies places[j] < places[k] by {
            assert(inner[j] < inner[k]);
            assert(0 <= inner[j] && inner[k] < outer.len());
        }
        assert forall|i: int| 0 <= i < list.len() implies (is_shown(
            (#[trigger] list[i]).normal,
            fit_filter,
            all,
        ) <==> places.contains(i)) by {
            assert(here(list[i]) <==> outer.contains(i));
            if outer.contains(i) {
                let k = choose|k: int| 0 <= k < outer.len() && outer[k] == i;
                assert(normal[k] == list[i].normal);
                assert(keep(normal[k]) <==> inner.contains(k));
                if inner.contains(k) {
                    let m = choose|m: int| 0 <= m < inner.len() && inner[m] == k;
                    assert(places[m] == i);
                }
                if places.contains(i) {
                    let m = choose|m: int| 0 <= m < places.len() && places[m] == i;
                    assert(0 <= inner[m] < outer.len());
                    if inner[m] < k {
                        assert(outer[inner[m]] < outer[k]);
                    }
                    if inner[m] > k {
                        assert(outer[k] < outer[inner[m]]);
                    }
                    assert(inner.contains(k));
                }
            } else if places.contains(i) {
                let m = choose|m: int| 0 <= m < places.len() && places[m] == i;
                assert(0 <= inner[m] < outer.len());
                assert(outer[inner[m]] == i);
            }
        }
        places
    }
}

/// The rows of a page: first those of the models in their order, without those that
/// are not shown; then those for macOS variants, on macOS or where everything is asked
/// for. Where there are more than the limit, macOS rows keep their places, and of the
/// others the first stay.
pub proof fn law_page_in_full(
    list: Seq<AnnotationView>,
    fit_filter: bool,
    all: bool,
    on_macos: bool,
    limit: nat,
) -> (places: Seq<int>)
    ensures
        ({
            let page = page_of(list, fit_filter, all, on_macos, limit);
            let n = places.len() as int;
            let macos = if on_macos || all {
                macos_rows(list).len() as int
            } else {
                0
            };
            &&& climbs(places, list.len())
            &&& n <= page.rows.len() <= limit
            &&& page.rows.len() == n + macos || page.rows.len() == limit
            &&& page.rows.len() - n <= macos
            &&& macos <= limit ==> page.rows.len() - n == macos
            &&& macos > limit ==> n == 0
            &&& forall|k: int|
                0 <= k < n ==> #[trigger] page.rows[k] == list[places[k]].normal && is_shown(
                    list[places[k]].normal,
                    fit_filter,
                    all,
                )
            &&& forall|k: int|
                n <= k < page.rows.len() ==> #[trigger] page.rows[k] == macos_rows(list)[k - n]
            &&& forall|i: int|
                0 <= i < list.len() && is_shown((#[trigger] list[i]).normal, fit_filter, all) ==> {
                    ||| places.contains(i)
                    ||| page.rows.len() == limit && forall|k: int|
                        0 <= k < n ==> #[trigger] places[k] < i
                }
        }),
{
    let page = page_of(list, fit_filter, all, on_macos, limit);
    let kept = kept_rows(list, fit_filter, all);
    let macos = if on_macos || all {
        macos_rows(list)
    } else {
        Seq::empty()
    };
    let every = lemma_shown_places(list, fit_filter, all);
    law_macos_rows_keep_their_places(kept, macos, limit);
    let tail = if macos.len() < limit {
        macos.len()
    } else {
        limit
    };
    let n = page.rows.len() - tail;
    let places = every.take(n);
    assert forall|k: int| 0 <= k < n implies #[trigger] page.rows[k] == list[places[k]].normal
        && is_shown(list[places[k]].normal, fit_filter, all) by {
        assert(page.rows.take(n)[k] == page.rows[k]);
        assert(kept.take(n)[k] == kept[k]);
        assert(kept[k] == list[every[k]].normal);
        assert(every.contains(every[k]));
        assert(0 <= every[k] < list.len());
    }
    assert forall|k: int| n <= k < page.rows.len() implies #[trigger] page.rows[k] == macos_rows(
        list,
    )[k - n] by {
        assert(page.rows.skip(n)[k - n] == page.rows[k]);
        assert(macos.take(tail as int)[k - n] == macos[k - n]);
    }
    assert forall|i: int|
        0 <= i < list.len() && is_shown((#[trigger] list[i]).normal, fit_filter, all) implies {
        ||| places.contains(i)
        ||| page.rows.len() == limit && forall|k: int| 0 <= k < n ==> #[trigger] places[k] < i
    } by {
        assert(every.contains(i));
        let m = choose|m: int| 0 <= m < every.len() && every[m] == i;
        if m < n {
            assert(places[m] == i);
        } else {
            assert(kept.len() > n);
            assert(page.rows.len() == limit);
            assert forall|k: int| 0 <= k < n implies #[trigger] places[k] < i by {
                assert(every[k] < every[m]);
            }
        }
    }
    assert(climbs(places, list.len())) by {
        assert forall|k: int| 0 <= k < places.len() implies 0 <= #[trigger] places[k] < list.len() by {
            assert(0 <= every[k] < list.len());
        }
        assert forall|j: int, k: int| 0 <= j < k < places.len() implies places[j] < places[k] by {
            assert(every[j] < every[k]);
        }
    }
    places
}

/// Five results more than are asked for make up for five that are hidden: if at least
/// that many were looked at and no more than five of them are not shown, the page is
/// full.
pub proof fn law_extra_results_fill_the_page(
    list: Seq<AnnotationView>,
    fit_filter: bool,
    all: bool,
    on_macos: bool,
    limit: nat,
    hidden: Seq<int>,
)
    requires
        list.len() >= limit + 5,
        hidden.len() <= 5,
        forall|i: int|
            0 <= i < limit + 5 ==> is_shown((#[trigger] list[i]).normal, fit_filter, all)
                || hidden.contains(i),
    ensures
        page_of(list, fit_filter, all, on_macos, limit).rows.len() == limit,
{
    let page = page_of(list, fit_filter, all, on_macos, limit);
    let places = law_page_in_full(list, fit_filter, all, on_macos, limit);
    if page.rows.len() < limit {
        let some = vstd::set_lib::set_int_range(0, limit as int + 5);
        let found = places.to_set().union(hidden.to_set());
        vstd::set_lib::lemma_int_range(0, limit as int + 5);
        places.lemma_cardinality_of_set();
        hidden.lemma_cardinality_of_set();
        vstd::set_lib::lemma_len_union(places.to_set(), hidden.to_set());
        assert forall|i: int| some.contains(i) implies found.contains(i) by {
            assert(is_shown(list[i].normal, fit_filter, all) || hidden.contains(i));
        }
        assert(some.subset_of(found));
        vstd::set_lib::lemma_len_subset(some, found);
    }
}

/// A search that found enough fills its page, unless more than five of the first
/// results of the ranking are not shown.
pub proof fn law_search_fills_its_page(
    query: Seq<char>,
    limit: nat,
    hw: HardwareProfile,
    opts: ResolveOpts,
    results: Seq<SearchResult>,
    segments: Seq<Seq<Lookup>>,
    list: Seq<AnnotationView>,
    on_macos: bool,
    hidden: Seq<int>,
)
    requires
        are_annotations(
            query,
            considered(results, query, limit),
            hw,
            opts,
            segments,
            list,
        ),
        results.len() >= limit + 5,
        hidden.len() <= 5,
        forall|i: int|
            0 <= i < limit + 5 ==> is_shown(
                (#[trigger] list[i]).normal,
                opts.fit_filter,
                opts.all,
            ) || hidden.contains(i),
    ensures
        list.len() == limit + 5,
        page_of(list, opts.fit_filter, opts.all, on_macos, limit).rows.len() == limit,
{
    law_five_more_are_looked_at(results, query, limit);
    law_extra_results_fill_the_page(list, opts.fit_filter, opts.all, on_macos, limit, hidden);
}

/// One more model is counted as hidden exactly where its row is: without local
/// weights, too large where only fits are asked for, or with a row for macOS that is
/// not shown here.
pub proof fn law_one_more_model_is_counted(
    list: Seq<AnnotationView>,
    a: AnnotationView,
    fit_filter: bool,
    all: bool,
    on_macos: bool,
    limit: nat,
)
    ensures
        ({
            let before = page_of(list, fit_filter, all, on_macos, limit);
            let after = page_of(list.push(a), fit_filter, all, on_macos, limit);
            let none = page_of(Seq::empty(), fit_filter, all, on_macos, limit);
            &&& after.cloud_hidden == before.cloud_hidden + (if !all && a.normal.filtered == Some(
                FilteredReason::CloudOnly,
            ) {
                1nat
            } else {
                0nat
            })
            &&& after.fit_hidden == before.fit_hidden + (if !all && fit_filter && a.normal.filtered
                is None && found_too_large(a.normal) {
                1nat
            } else {
                0nat
            })
            &&& after.macos_hidden == before.macos_hidden + (if !all && !on_macos && a.macos is Some {
                1nat
            } else {
                0nat
            })
            &&& none.cloud_hidden == 0 && none.fit_hidden == 0 && none.macos_hidden == 0
            &&& none.rows.len() == 0
        }),
{
    let longer = list.push(a);
    assert(longer.drop_last() =~= list);
    assert(longer.last() == a);
    let normal = normal_rows(list);
    assert(normal.push(a.normal).drop_last() =~= normal);
    assert(is_nonfit_row(a.normal) == found_too_large(a.normal)) by {
        if let Some(fit) = a.normal.fit {
            fit::law_which_verdicts_are_fits(fit);
        }
    }
    if let Some(reason) = a.normal.filtered {
        assert(reason == FilteredReason::CloudOnly || reason == FilteredReason::PlatformRestricted);
    }
    let none = page_of(Seq::empty(), fit_filter, all, on_macos, limit);
    assert(normal_rows(Seq::empty()).len() == 0 && macos_rows(Seq::empty()).len() == 0);
    assert(staying(Seq::<RowView>::empty(), |row: RowView| stays(row, fit_filter)).len() == 0);
    assert(none.rows.len() == 0);
}

/// The row of a model shows what its resolution gave: the variant and the verdict, or
/// the error's message, and why there is no variant that runs here.
pub proof fn law_row_tells_of_the_resolution(
    result: SearchResult,
    outcome: Result<OutcomeView, ErrorView>,
)
    ensures
        ({
            let row = annotated(result, outcome);
            &&& row.result == result
            &&& outcome matches Ok(o) ==> row.variant == Some(o.variant) && row.fit == Some(o.fit)
                && row.error is None && row.filtered is None
            &&& outcome matches Err(e) ==> {
                &&& row.variant is None && row.fit is None && row.error == Some(e.message())
                &&& row.filtered == Some(FilteredReason::CloudOnly) <==> e is ManifestCloudOnly
                &&& row.filtered == Some(FilteredReason::PlatformRestricted) <==> e
                    is ManifestPlatformRestricted
            }
        }),
{
}

/// A model gets a row for its macOS variant exactly if its name answers the query and
/// its tags could be had and name such a variant.
pub proof fn law_which_models_get_a_macos_row(
    query: Seq<char>,
    result: SearchResult,
    hw: HardwareProfile,
    opts: ResolveOpts,
    asked: Seq<Lookup>,
    a: AnnotationView,
)
    requires
        is_annotation(query, result, hw, opts, asked, a),
    ensures
        registry::relevance(query, result.name@) == 0 ==> a.macos is None,
        registry::relevance(query, result.name@) > 0 ==> {
            &&& asked[0] is Tags && asked[0]->Tags_model == result.name@
            &&& a.macos is Some <==> asked[0]->Tags_reply is Ok && exists|i: int|
                0 <= i < asked[0]->Tags_reply->Ok_0@.len() && types::macos_only_text(
                    (#[trigger] asked[0]->Tags_reply->Ok_0@[i]).tag@,
                )
        },
        a.macos matches Some(row) ==> row.result == result && row.fit == Some(FitResult::MacosOnly)
            && row.error is None && row.filtered is None && row.variant is Some
            && row.variant->Some_0.name == result.name@ && row.variant->Some_0.weights_bytes == 0
            && row.variant->Some_0.total_bytes == 0,
{
    if registry::relevance(query, result.name@) > 0 {
        if let Ok(tags) = asked[0]->Tags_reply {
            if exists|i: int| 0 <= i < tags@.len() && types::macos_only_text((#[trigger] tags@[i]).tag@) {
                let i = choose|i: int|
                    0 <= i < tags@.len() && types::macos_only_text((#[trigger] tags@[i]).tag@);
                law_macos_row_shows_the_largest(tags@, i);
            }
            if a.macos is Some {
                lemma_largest_is_macos(tags@);
                let i = largest_macos(tags@)->Some_0;
                assert(types::macos_only_text(tags@[i].tag@));
            }
        }
    }
}

/// Of several macOS variants the one with the most parameters stands for all, an
/// unknown number counting as none; of equals the one whose name comes last.
pub proof fn law_macos_variant_in_full(result: SearchResult, tags: Vec<TagInfo>, j: int) -> (i: int)
    requires
        0 <= j < tags@.len(),
        types::macos_only_text(tags@[j].tag@),
        forall|k: int|
            0 <= k < tags@.len() ==> ((#[trigger] tags@[k]).param_billions matches Some(p)
                ==> p.bits <= 0x7ff0_0000_0000_0000),
    ensures
        0 <= i < tags@.len(),
        types::macos_only_text(tags@[i].tag@),
        ({
            let most = match tags@[i].param_billions {
                Some(p) => p.bits,
                None => 0u64,
            };
            let other = match tags@[j].param_billions {
                Some(p) => p.bits,
                None => 0u64,
            };
            &&& most >= other
            &&& most == other ==> tags@[i].tag@ == tags@[j].tag@ || text::text_less(
                tags@[j].tag@,
                tags@[i].tag@,
            )
        }),
        macos_row(result, Ok(tags)) matches Some(row) && row.variant matches Some(v) && v.tag
            == tags@[i].tag@ && v.full_ref == tags@[i].full_ref@ && v.param_billions
            == tags@[i].param_billions,
{
    assert(rank::counts_are_numbers(tags@));
    law_macos_numbers_are_ordered(tags@);
    law_macos_row_shows_the_largest(tags@, j);
    let i = largest_macos(tags@)->Some_0;
    text::lemma_text_less_total(tags@[i].tag@, tags@[j].tag@);
    i
}

/// A list is cut to the limit from the front.
pub proof fn law_first_rows_stay(rows: Seq<RowView>, limit: nat)
    ensures
        rows.len() <= limit ==> first_rows(rows, limit) == rows,
        rows.len() > limit ==> first_rows(rows, limit) == rows.subrange(0, limit as int),
{
    if rows.len() > limit {
        assert(rows.take(limit as int) =~= rows.subrange(0, limit as int));
    }
}

/// One more result is looked at for macOS variants if its name answers the query.
pub proof fn law_relevant_results_are_looked_at(
    results: Seq<SearchResult>,
    result: SearchResult,
    query: Seq<char>,
)
    ensures
        registry::relevance(query, result.name@) > 0 ==> relevant(results.push(result), query)
            == relevant(results, query).push(result),
        registry::relevance(query, result.name@) == 0 ==> relevant(results.push(result), query)
            == relevant(results, query),
        relevant(Seq::empty(), query).len() == 0,
{
    assert(results.push(result).drop_last() =~= results);
}

/// One more model adds its row for macOS if it has one.
pub proof fn law_present_rows_are_kept(rows: Seq<Option<RowView>>, row: Option<RowView>)
    ensures
        row matches Some(r) ==> present(rows.push(row)) == present(rows).push(r),
        row is None ==> present(rows.push(row)) == present(rows),
        present(Seq::empty()).len() == 0,
{
    assert(rows.push(row).drop_last() =~= rows);
}

/// The size range of a model goes from the least to the greatest size that its tag
/// page gives, in the words of the first tag of that size; one size stands alone, and
/// without any there is no range.
pub proof fn law_size_range_in_full(tags: Seq<TagInfo>, j: int) -> (ends: (int, int))
    requires
        0 <= j < tags.len(),
        tags[j].approx_bytes() is Some,
    ensures
        ({
            let (lo, hi) = ends;
            &&& 0 <= lo < tags.len() && 0 <= hi < tags.len()
            &&& tags[lo].approx_bytes() is Some && tags[hi].approx_bytes() is Some
            &&& tags[lo].approx_bytes()->Some_0 <= tags[j].approx_bytes()->Some_0
            &&& tags[hi].approx_bytes()->Some_0 >= tags[j].approx_bytes()->Some_0
            &&& j < lo ==> tags[lo].approx_bytes() != tags[j].approx_bytes()
            &&& j < hi ==> tags[hi].approx_bytes() != tags[j].approx_bytes()
            &&& tags[lo].approx_bytes() == tags[hi].approx_bytes() ==> size_range(tags) == Some(
                tags[lo].approx_size->Some_0@,
            )
            &&& tags[lo].approx_bytes() != tags[hi].approx_bytes() ==> size_range(tags) == Some(
                tags[lo].approx_size->Some_0@ + " - "@ + tags[hi].approx_size->Some_0@,
            )
        }),
{
    lemma_extreme_size(tags, false, j);
    lemma_extreme_size(tags, true, j);
    (extreme_size(tags, false)->Some_0, extreme_size(tags, true)->Some_0)
}

proof fn lemma_extreme_size(tags: Seq<TagInfo>, greatest: bool, j: int)
    requires
        0 <= j < tags.len(),
        tags[j].approx_bytes() is Some,
    ensures
        extreme_size(tags, greatest) matches Some(i) && 0 <= i < tags.len()
            && tags[i].approx_bytes() is Some && (if greatest {
            tags[i].approx_bytes()->Some_0 >= tags[j].approx_bytes()->Some_0
        } else {
            tags[i].approx_bytes()->Some_0 <= tags[j].approx_bytes()->Some_0
        }) && (j < i ==> tags[i].approx_bytes() != tags[j].approx_bytes()),
    decreases tags.len(),
{
    let rest = tags.drop_last();
    assert(forall|i: int| 0 <= i < rest.len() ==> rest[i] == tags[i]);
    lemma_extreme_is_sized(rest, greatest);
    if j < rest.len() {
        lemma_extreme_size(rest, greatest, j);
    }
}

proof fn lemma_extreme_is_sized(tags: Seq<TagInfo>, greatest: bool)
    ensures
        extreme_size(tags, greatest) matches Some(i) ==> 0 <= i < tags.len()
            && tags[i].approx_bytes() is Some,
    decreases tags.len(),
{
    if tags.len() > 0 {
        lemma_extreme_is_sized(tags.drop_last(), greatest);
    }
}

/// Without a size on the tag page there is no range.
pub proof fn law_no_sizes_no_range(tags: Seq<TagInfo>)
    requires
        forall|i: int| 0 <= i < tags.len() ==> (#[trigger] tags[i]).approx_bytes() is None,
    ensures
        size_range(tags) is None,
{
    lemma_extreme_is_sized(tags, false);
}

/// A browse asks for the tags of each model in turn, and shows each with the size range
/// of its own reply.
pub proof fn law_browse_in_full(models: Seq<SearchResult>, asked: Seq<Lookup>, i: int)
    requires
        asked_all_tags(asked, models),
        0 <= i < models.len(),
    ensures
        asked.len() == models.len(),
        asked[i] matches Lookup::Tags { model, reply } && model == models[i].name@ && (
        reply matches Ok(tags) ==> browsed(models, asked)[i] == (models[i], size_range(tags@))) && (
        reply is Err ==> browsed(models, asked)[i] == (models[i], None::<Seq<char>>)),
        browsed(models, asked).len() == models.len(),
        macos_replies(models, asked).len() == models.len(),
        macos_replies(models, asked)[i] == macos_row(models[i], asked[i]->Tags_reply),
{
}

/// A found model is resolved under its own name, for the same machine and with the same
/// options as the search, and its row tells of that resolution.
pub proof fn law_rows_are_resolved_as_asked(
    query: Seq<char>,
    result: SearchResult,
    hw: HardwareProfile,
    opts: ResolveOpts,
    asked: Seq<Lookup>,
    a: AnnotationView,
) -> (outcome: Result<OutcomeView, ErrorView>)
    requires
        is_annotation(query, result, hw, opts, asked, a),
    ensures
        registry::relevance(query, result.name@) > 0 ==> resolver::is_resolution(
            result.name@,
            hw,
            opts,
            asked.skip(1),
            outcome,
        ),
        registry::relevance(query, result.name@) == 0 ==> resolver::is_resolution(
            result.name@,
            hw,
            opts,
            asked,
            outcome,
        ),
        a.normal == annotated(result, outcome),
{
    let rest = if registry::relevance(query, result.name@) > 0 {
        asked.skip(1)
    } else {
        asked
    };
    choose|outcome: Result<OutcomeView, ErrorView>| #[trigger]
        resolver::is_resolution(result.name@, hw, opts, rest, outcome) && a.normal == annotated(
            result,
            outcome,
        )
}

/// A search annotates the results one after the other, each for itself; one more result
/// adds its own lookups behind those before.
pub proof fn law_each_result_is_annotated(
    query: Seq<char>,
    results: Seq<SearchResult>,
    hw: HardwareProfile,
    opts: ResolveOpts,
    segments: Seq<Seq<Lookup>>,
    list: Seq<AnnotationView>,
    i: int,
    more: Seq<Lookup>,
)
    requires
        are_annotations(query, results, hw, opts, segments, list),
        0 <= i < results.len(),
    ensures
        list.len() == results.len(),
        segments.len() == results.len(),
        is_annotation(query, results[i], hw, opts, segments[i], list[i]),
        list[i].normal.result == results[i],
        all_lookups(segments.push(more)) == all_lookups(segments) + more,
        all_lookups(Seq::empty()).len() == 0,
{
    assert(is_annotation(query, results[i], hw, opts, segments[i], list[i]));
    assert(segments.push(more).drop_last() =~= segments);
}

} // verus!
