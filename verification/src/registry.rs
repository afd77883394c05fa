//! The model registry as the library sees it.

use vstd::prelude::*;

use crate::error::{ErrorView, ResolverError};
use crate::order;
use crate::text;
use crate::types::{SearchResult, TagInfo};

verus! {

/// A question put to a registry, with the reply.
pub enum Lookup {
    Tags { model: Seq<char>, reply: Result<Vec<TagInfo>, ResolverError> },
    Manifest { model: Seq<char>, tag: Seq<char>, reply: Result<(u64, u64), ResolverError> },
}

/// Where tags and sizes come from. Nothing is assumed of the replies.
pub trait Registry {
    /// All that the registry was asked so far, oldest first. Only proofs speak of
    /// it; an implementation outside of them need not define it.
    closed spec fn asked(&self) -> Seq<Lookup> {
        arbitrary()
    }

    /// The tags of a model.
    fn list_tags(&mut self, model: &str) -> (r: Result<Vec<TagInfo>, ResolverError>)
        ensures
            final(self).asked() == old(self).asked().push(Lookup::Tags { model: model@, reply: r }),
    ;

    /// The size of a variant's weights and that of all its layers, in bytes.
    fn get_manifest_size(&mut self, model: &str, tag: &str) -> (r: Result<
        (u64, u64),
        ResolverError,
    >)
        ensures
            final(self).asked() == old(self).asked().push(
                Lookup::Manifest { model: model@, tag: tag@, reply: r },
            ),
    ;
}

// ---- relevance of search results -------------------------------------------

/// The parts of a model name between its separators.
pub open spec fn name_tokens(name: Seq<char>) -> Seq<Seq<char>> {
    text::split(name, "-_.:"@)
}

pub open spec fn token_starts(name: Seq<char>, query: Seq<char>) -> bool {
    exists|i: int|
        0 <= i < name_tokens(name).len() && text::has_prefix(#[trigger] name_tokens(name)[i], query)
}

/// How well a name answers a query, whatever the case of ASCII letters: 3 for the name itself, 2
/// where the name starts with the query, 1 where one of its parts does, else 0.
pub open spec fn relevance(query: Seq<char>, name: Seq<char>) -> nat {
    let q = text::lower(query);
    let n = text::lower(name);
    if n == q {
        3
    } else if text::has_prefix(n, q) {
        2
    } else if token_starts(n, q) {
        1
    } else {
        0
    }
}

pub fn relevance_score(query: &str, name: &str) -> (r: u32)
    ensures
        r == relevance(query@, name@),
{
    let query_chars = text::chars_of(query);
    let name_chars = text::chars_of(name);
    let q = text::to_lower(query_chars.as_slice());
    let n = text::to_lower(name_chars.as_slice());
    if text::same_chars(n.as_slice(), q.as_slice()) {
        return 3;
    }
    if text::starts_with(n.as_slice(), q.as_slice()) {
        return 2;
    }
    let separators = text::chars_of("-_.:");
    let tokens = text::split_chars(n.as_slice(), separators.as_slice());
    for i in 0..tokens.len()
        invariant
            text::buffers(tokens@) == name_tokens(n@),
            n@ == text::lower(name@),
            q@ == text::lower(query@),
            n@ != q@,
            !text::has_prefix(n@, q@),
            forall|j: int|
                0 <= j < i ==> !text::has_prefix(#[trigger] name_tokens(n@)[j], q@),
    {
        assert(name_tokens(n@)[i as int] == tokens@[i as int]@);
        if text::starts_with(tokens[i].as_slice(), q.as_slice()) {
            assert(token_starts(n@, q@));
            return 1;
        }
    }
    assert(text::buffers(tokens@).len() == tokens@.len());
    0
}

/// More relevant results come first.
pub open spec fn relevance_order(query: Seq<char>) -> spec_fn(SearchResult, SearchResult) -> bool {
    |a: SearchResult, b: SearchResult| relevance(query, a.name@) > relevance(query, b.name@)
}

/// Puts search results in the order of their relevance. Results of equal
/// relevance stay in the order in which the search returned them.
pub fn rank_search_results(results: Vec<SearchResult>, query: &str) -> (r: Vec<SearchResult>)
    ensures
        r@ == order::sorted(results@, relevance_order(query@)),
{
    let precedes = |a: &SearchResult, b: &SearchResult| -> (r: bool)
        ensures
            r == (relevance(query@, a.name@) > relevance(query@, b.name@)),
        { relevance_score(query, a.name.as_str()) > relevance_score(query, b.name.as_str()) };
    order::sort(results, precedes, Ghost(relevance_order(query@)))
}

/// Ranking by relevance keeps every result once, puts the more relevant first
/// and otherwise keeps the order of the search.
pub proof fn law_relevance_ranking_is_stable(results: Seq<SearchResult>, query: Seq<char>) -> (from:
    Seq<int>)
    ensures
        order::is_stable_order(
            results,
            order::sorted(results, relevance_order(query)),
            from,
            relevance_order(query),
        ),
{
    order::lemma_sorted_is_stable(results, relevance_order(query))
}

/// A query inside a word counts for nothing: unless some part of the name starts
/// with it, the name is unrelated.
pub proof fn law_relevance_goes_by_parts(query: Seq<char>, name: Seq<char>)
    ensures
        relevance(query, name) == 0 <==> !text::has_prefix(text::lower(name), text::lower(query))
            && !token_starts(text::lower(name), text::lower(query)),
{
    let q = text::lower(query);
    if text::lower(name) == q {
        assert(q.take(q.len() as int) =~= q);
    }
}

// ---- manifests -------------------------------------------------------------

/// One layer of a manifest.
#[derive(Debug, Clone, PartialEq, Eq)]
pub struct ManifestLayer {
    pub media_type: String,
    pub size: u64,
}

pub open spec fn is_weights(layer: ManifestLayer) -> bool {
    layer.media_type@ == "application/vnd.ollama.image.model"@
}

/// The size of all layers, or of the weights alone.
pub open spec fn layers_size(layers: Seq<ManifestLayer>, weights_only: bool) -> nat
    decreases layers.len(),
{
    if layers.len() == 0 {
        0
    } else {
        layers_size(layers.drop_last(), weights_only) + if !weights_only || is_weights(
            layers.last(),
        ) {
            layers.last().size as nat
        } else {
            0
        }
    }
}

pub open spec fn has_weights(layers: Seq<ManifestLayer>) -> bool {
    exists|i: int| 0 <= i < layers.len() && is_weights(#[trigger] layers[i])
}

/// The sizes that a manifest gives for its weights and for all its layers. A
/// manifest without weights belongs to a model that runs in the cloud only.
pub open spec fn sizes_of(model: Seq<char>, tag: Seq<char>, layers: Seq<ManifestLayer>) -> Result<
    (u64, u64),
    ErrorView,
> {
    if !has_weights(layers) {
        Err(ErrorView::ManifestCloudOnly { model, tag })
    } else if layers_size(layers, false) > u64::MAX {
        Err(ErrorView::ManifestInvalid { model, tag, detail: "layer sizes overflow"@ })
    } else {
        Ok((layers_size(layers, true) as u64, layers_size(layers, false) as u64))
    }
}

proof fn lemma_weights_are_part(layers: Seq<ManifestLayer>)
    ensures
        layers_size(layers, true) <= layers_size(layers, false),
    decreases layers.len(),
{
    if layers.len() > 0 {
        lemma_weights_are_part(layers.drop_last());
    }
}

/// The sizes that a manifest gives.
pub fn manifest_sizes(model: &str, tag: &str, layers: &Vec<ManifestLayer>) -> (r: Result<
    (u64, u64),
    ResolverError,
>)
    ensures
        match sizes_of(model@, tag@, layers@) {
            Ok(sizes) => r == Ok::<_, ResolverError>(sizes),
            Err(error) => r matches Err(e) && e@ == error,
        },
{
    let mut found: bool = false;
    let mut weights: u64 = 0;
    let mut total: u64 = 0;
    let mut overflow: bool = false;
    for i in 0..layers.len()
        invariant
            found == exists|j: int| 0 <= j < i && is_weights(#[trigger] layers@[j]),
            overflow == (layers_size(layers@.take(i as int), false) > u64::MAX),
            !overflow ==> total == layers_size(layers@.take(i as int), false),
            !overflow ==> weights == layers_size(layers@.take(i as int), true),
    {
        let layer = &layers[i];
        proof {
            assert(layers@.take(i + 1).drop_last() =~= layers@.take(i as int));
            lemma_weights_are_part(layers@.take(i + 1));
        }
        let is_model = text::same_text(
            layer.media_type.as_str(),
            "application/vnd.ollama.image.model",
        );
        if is_model {
            found = true;
            assert(is_weights(layers@[i as int]));
        }
        if !overflow {
            match total.checked_add(layer.size) {
                Some(sum) => {
                    total = sum;
                    if is_model {
                        weights = weights + layer.size;
                    }
                },
                None => {
                    overflow = true;
                },
            }
        }
    }
    assert(layers@.take(layers@.len() as int) =~= layers@);
    if !found {
        return Err(
            ResolverError::ManifestCloudOnly { model: model.to_string(), tag: tag.to_string() },
        );
    }
    if overflow {
        return Err(
            ResolverError::ManifestInvalid {
                model: model.to_string(),
                tag: tag.to_string(),
                detail: "layer sizes overflow".to_string(),
            },
        );
    }
    Ok((weights, total))
}

/// The weights of a manifest never exceed the sum of its layers.
pub proof fn law_weights_are_part_of_the_total(
    model: Seq<char>,
    tag: Seq<char>,
    layers: Seq<ManifestLayer>,
)
    ensures
        sizes_of(model, tag, layers) matches Ok((weights, total)) ==> weights <= total,
{
    lemma_weights_are_part(layers);
}

/// What the HTTP status of a refused manifest means: there is no such tag, the
/// tag is for macOS only, or the registry cannot answer.
pub open spec fn refusal(model: Seq<char>, tag: Seq<char>, status: u16) -> ErrorView {
    if status == 404 {
        ErrorView::ManifestMissing { model, tag, detail: "HTTP 404"@ }
    } else if status == 412 {
        ErrorView::ManifestPlatformRestricted { model, tag, status }
    } else {
        ErrorView::ManifestUnavailable {
            model,
            tag,
            detail: "HTTP "@ + text::decimal(status as nat),
        }
    }
}

/// The error for a manifest that was refused with an HTTP status.
pub fn manifest_refusal(model: &str, tag: &str, status: u16) -> (r: ResolverError)
    ensures
        r@ == refusal(model@, tag@, status),
{
    if status == 404 {
        ResolverError::ManifestMissing {
            model: model.to_string(),
            tag: tag.to_string(),
            detail: "HTTP 404".to_string(),
        }
    } else if status == 412 {
        ResolverError::ManifestPlatformRestricted {
            model: model.to_string(),
            tag: tag.to_string(),
            status,
        }
    } else {
        ResolverError::ManifestUnavailable {
            model: model.to_string(),
            tag: tag.to_string(),
            detail: "HTTP ".to_string().concat(text::decimal_text(status as u64).as_str()),
        }
    }
}

/// A character between the parts of a model name.
pub open spec fn parts_names(c: char) -> bool {
    c == '-' || c == '_' || c == '.' || c == ':'
}

/// The query stands in the name from `p` on, behind a character that parts names.
pub open spec fn starts_part(name: Seq<char>, query: Seq<char>, p: int) -> bool {
    &&& 0 < p
    &&& p + query.len() <= name.len()
    &&& parts_names(name[p - 1])
    &&& name.subrange(p, p + query.len()) == query
}

/// Relevance in full, whatever the case of the letters: 3 for the name itself, at
/// least 2 where the name starts with the query, at least 1 where a later part of the
/// name does, and 0 for everything else.
pub proof fn law_relevance_in_full(query: Seq<char>, name: Seq<char>)
    ensures
        ({
            let q = text::lower(query);
            let n = text::lower(name);
            let starts = q.len() <= n.len() && n.subrange(0, q.len() as int) == q;
            &&& relevance(query, name) <= 3
            &&& relevance(query, name) == 3 <==> n == q
            &&& relevance(query, name) >= 2 <==> starts
            &&& relevance(query, name) >= 1 <==> starts || ((forall|i: int|
                0 <= i < q.len() ==> !parts_names(#[trigger] q[i])) && exists|p: int| #[trigger]
                starts_part(n, q, p))
        }),
{
    let q = text::lower(query);
    let n = text::lower(name);
    let seps = "-_.:"@;
    reveal_strlit("-_.:");
    assert forall|c: char| #[trigger] parts_names(c) <==> seps.contains(c) by {
        assert(seps[0] == '-' && seps[1] == '_' && seps[2] == '.' && seps[3] == ':');
        if seps.contains(c) {
            let i = choose|i: int| 0 <= i < seps.len() && seps[i] == c;
            assert(i == 0 || i == 1 || i == 2 || i == 3);
        }
    }
    if q.len() <= n.len() {
        assert(n.take(q.len() as int) =~= n.subrange(0, q.len() as int));
    }
    if n == q {
        assert(n.subrange(0, q.len() as int) =~= q);
    }
    let tokens = name_tokens(n);
    if token_starts(n, q) {
        let k = choose|k: int| 0 <= k < tokens.len() && text::has_prefix(#[trigger] tokens[k], q);
        let p = text::lemma_piece_place(n, seps, k);
        assert forall|i: int| 0 <= i < q.len() implies n[p + i] == q[i] && !parts_names(
            #[trigger] q[i],
        ) by {
            assert(tokens[k].take(q.len() as int)[i] == tokens[k][i]);
            assert(n.subrange(p, p + tokens[k].len())[i] == tokens[k][i]);
            assert(!seps.contains(tokens[k][i]));
        }
        assert(n.subrange(p, p + q.len()) =~= q);
        if p > 0 {
            assert(parts_names(n[p - 1]));
            assert(starts_part(n, q, p));
        }
    }
    if (forall|i: int| 0 <= i < q.len() ==> !parts_names(#[trigger] q[i])) && exists|p: int|
        #[trigger] starts_part(n, q, p) {
        let p = choose|p: int| #[trigger] starts_part(n, q, p);
        assert(parts_names(n[p - 1]));
        let k = text::lemma_place_has_piece(n, seps, p);
        let piece = tokens[k];
        assert forall|i: int| 0 <= i < q.len() implies n[p + i] == q[i] by {
            assert(n.subrange(p, p + q.len())[i] == q[i]);
        }
        if piece.len() < q.len() {
            let at = p + piece.len();
            assert(seps.contains(n[at]));
            assert(parts_names(q[piece.len() as int]));
        }
        assert(piece.take(q.len() as int) =~= q) by {
            assert forall|i: int| 0 <= i < q.len() implies piece[i] == q[i] by {
                assert(n.subrange(p, p + piece.len())[i] == piece[i]);
            }
        }
        assert(text::has_prefix(tokens[k], q));
    }
}

/// Ranked results never get more relevant from one to the next, and results of equal
/// relevance stay in the order of the search.
pub proof fn law_more_relevant_results_come_first(
    results: Seq<SearchResult>,
    query: Seq<char>,
    i: int,
    j: int,
) -> (from: Seq<int>)
    requires
        0 <= i < j < results.len(),
    ensures
        ({
            let ranked = order::sorted(results, relevance_order(query));
            &&& ranked.len() == results.len()
            &&& from.len() == results.len()
            &&& 0 <= from[i] < results.len() && ranked[i] == results[from[i]]
            &&& 0 <= from[j] < results.len() && ranked[j] == results[from[j]]
            &&& from[i] != from[j]
            &&& relevance(query, ranked[i].name@) >= relevance(query, ranked[j].name@)
            &&& relevance(query, ranked[i].name@) == relevance(query, ranked[j].name@) ==> from[i]
                < from[j]
        }),
{
    let from = law_relevance_ranking_is_stable(results, query);
    let ranked = order::sorted(results, relevance_order(query));
    assert(ranked[i] == results[from[i]] && ranked[j] == results[from[j]]);
    assert(relevance_order(query)(ranked[i], ranked[j]) || (!relevance_order(query)(
        ranked[j],
        ranked[i],
    ) && from[i] < from[j]));
    from
}

/// One more layer adds its size to the total, and to the weights if it holds
/// weights; beyond what a number can hold the manifest is refused. Without any
/// weights it belongs to a model that runs in the cloud only.
pub proof fn law_one_more_layer(
    model: Seq<char>,
    tag: Seq<char>,
    layers: Seq<ManifestLayer>,
    layer: ManifestLayer,
)
    ensures
        ({
            let holds_weights = layer.media_type@ == "application/vnd.ollama.image.model"@;
            let before = sizes_of(model, tag, layers);
            let after = sizes_of(model, tag, layers.push(layer));
            &&& before matches Ok((weights, total)) ==> {
                &&& total + layer.size <= u64::MAX ==> (after matches Ok((w, t)) && t == total
                    + layer.size && w == weights + (if holds_weights {
                    layer.size as int
                } else {
                    0
                }))
                &&& total + layer.size > u64::MAX ==> after is Err && after->Err_0
                    is ManifestInvalid
            }
            &&& before == Err::<(u64, u64), _>(ErrorView::ManifestCloudOnly { model, tag })
                && !holds_weights ==> after == before
            &&& before == Err::<(u64, u64), _>(ErrorView::ManifestCloudOnly { model, tag })
                && holds_weights ==> (after matches Ok((w, t)) ==> w == layer.size)
        }),
        sizes_of(model, tag, Seq::empty()) == Err::<(u64, u64), _>(
            ErrorView::ManifestCloudOnly { model, tag },
        ),
{
    let longer = layers.push(layer);
    assert(longer.drop_last() =~= layers);
    assert(longer.last() == layer);
    assert forall|i: int| 0 <= i < layers.len() implies #[trigger] longer[i] == layers[i] by {}
    if has_weights(layers) {
        let i = choose|i: int| 0 <= i < layers.len() && is_weights(#[trigger] layers[i]);
        assert(is_weights(longer[i]));
    }
    if is_weights(layer) {
        assert(is_weights(longer[layers.len() as int]));
    }
    if has_weights(longer) && !is_weights(layer) {
        let i = choose|i: int| 0 <= i < longer.len() && is_weights(#[trigger] longer[i]);
        assert(is_weights(layers[i]));
    }
    lemma_weights_are_part(longer);
    if !has_weights(layers) {
        lemma_no_weights_no_size(layers);
    }
}

proof fn lemma_no_weights_no_size(layers: Seq<ManifestLayer>)
    requires
        !has_weights(layers),
    ensures
        layers_size(layers, true) == 0,
    decreases layers.len(),
{
    if layers.len() > 0 {
        let rest = layers.drop_last();
        assert(!is_weights(layers[layers.len() - 1]));
        assert(!has_weights(rest)) by {
            if has_weights(rest) {
                let i = choose|i: int| 0 <= i < rest.len() && is_weights(#[trigger] rest[i]);
                assert(is_weights(layers[i]));
            }
        }
        lemma_no_weights_no_size(rest);
    }
}

/// A status of 404 means that there is no such manifest, 412 that it is for macOS
/// only, and any other that the registry cannot answer.
pub proof fn law_what_a_status_means(model: Seq<char>, tag: Seq<char>, status: u16)
    ensures
        ({
            let e = refusal(model, tag, status);
            &&& e is ManifestMissing <==> status == 404
            &&& e == ErrorView::ManifestPlatformRestricted { model, tag, status } <==> status == 412
            &&& e is ManifestUnavailable <==> status != 404 && status != 412
            &&& e matches ErrorView::ManifestMissing { model: m, tag: t, .. } ==> m == model && t
                == tag
            &&& e matches ErrorView::ManifestUnavailable { model: m, tag: t, .. } ==> m == model
                && t == tag
        }),
{
}

} // verus!
