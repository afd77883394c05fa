//! The order in which the tags of a model are considered.

use vstd::prelude::*;

use crate::order;
use crate::text;
use crate::types::{ParamCount, TagInfo};

verus! {

pub open spec fn any_instruct(tags: Seq<TagInfo>) -> bool {
    exists|i: int| 0 <= i < tags.len() && (#[trigger] tags[i]).is_instruct
}

pub open spec fn any_default_quantized(tags: Seq<TagInfo>) -> bool {
    exists|i: int| 0 <= i < tags.len() && (#[trigger] tags[i]).is_default_quantized()
}

/// Tags for assistants before those of base models, then the default
/// quantization before others, each where there is a tag of the better kind.
pub open spec fn group(tag: TagInfo, has_instruct: bool, has_default: bool) -> nat {
    (if has_instruct && !tag.is_instruct {
        2nat
    } else {
        0nat
    }) + (if has_default && !tag.is_default_quantized() {
        1nat
    } else {
        0nat
    })
}

/// More parameters come first; an unknown number comes last. A count that is not a
/// number ties with every other count.
pub open spec fn more_params(a: Option<ParamCount>, b: Option<ParamCount>) -> bool {
    match (a, b) {
        (Some(x), Some(y)) => y.is_below(x),
        (Some(_), None) => true,
        _ => false,
    }
}

/// `a` is considered before `b`: by group, then by parameters, then by name.
pub open spec fn ranks_before(a: TagInfo, b: TagInfo, has_instruct: bool, has_default: bool) -> bool {
    let ga = group(a, has_instruct, has_default);
    let gb = group(b, has_instruct, has_default);
    ga < gb || (ga == gb && (more_params(a.param_billions, b.param_billions) || (!more_params(
        b.param_billions,
        a.param_billions,
    ) && text::text_less(a.tag@, b.tag@))))
}

pub open spec fn rank_order(has_instruct: bool, has_default: bool) -> spec_fn(
    TagInfo,
    TagInfo,
) -> bool {
    |a: TagInfo, b: TagInfo| ranks_before(a, b, has_instruct, has_default)
}

/// The tags of a model in the order in which they are considered.
pub open spec fn ranked(tags: Seq<TagInfo>) -> Seq<TagInfo> {
    order::sorted(tags, rank_order(any_instruct(tags), any_default_quantized(tags)))
}

fn candidate_group(tag: &TagInfo, has_instruct: bool, has_default: bool) -> (r: u8)
    ensures
        r == group(*tag, has_instruct, has_default),
{
    let instruct_penalty: u8 = if has_instruct && !tag.is_instruct {
        2
    } else {
        0
    };
    let quant_penalty: u8 = if has_default && !tag.has_default_quantization() {
        1
    } else {
        0
    };
    instruct_penalty + quant_penalty
}

fn has_more_params(a: Option<ParamCount>, b: Option<ParamCount>) -> (r: bool)
    ensures
        r == more_params(a, b),
{
    match (a, b) {
        (Some(x), Some(y)) => y.below(x),
        (Some(_), None) => true,
        _ => false,
    }
}

fn precedes(a: &TagInfo, b: &TagInfo, has_instruct: bool, has_default: bool) -> (r: bool)
    ensures
        r == ranks_before(*a, *b, has_instruct, has_default),
{
    let ga = candidate_group(a, has_instruct, has_default);
    let gb = candidate_group(b, has_instruct, has_default);
    if ga != gb {
        return ga < gb;
    }
    if has_more_params(a.param_billions, b.param_billions) {
        return true;
    }
    if has_more_params(b.param_billions, a.param_billions) {
        return false;
    }
    text::chars_less(
        text::chars_of(a.tag.as_str()).as_slice(),
        text::chars_of(b.tag.as_str()).as_slice(),
    )
}

/// Puts the tags of a model in the order in which they are considered.
pub fn rank_candidates(candidates: Vec<TagInfo>) -> (r: Vec<TagInfo>)
    ensures
        r@ == ranked(candidates@),
{
    let mut has_instruct: bool = false;
    let mut has_default: bool = false;
    for i in 0..candidates.len()
        invariant
            has_instruct == exists|j: int| 0 <= j < i && (#[trigger] candidates@[j]).is_instruct,
            has_default == exists|j: int|
                0 <= j < i && (#[trigger] candidates@[j]).is_default_quantized(),
    {
        if candidates[i].is_instruct {
            has_instruct = true;
            assert(candidates@[i as int].is_instruct);
        }
        if candidates[i].has_default_quantization() {
            has_default = true;
            assert(candidates@[i as int].is_default_quantized());
        }
    }
    let before = |a: &TagInfo, b: &TagInfo| -> (r: bool)
        ensures
            r == ranks_before(*a, *b, has_instruct, has_default),
        { precedes(a, b, has_instruct, has_default) };
    order::sort(candidates, before, Ghost(rank_order(has_instruct, has_default)))
}

// ---- laws ------------------------------------------------------------------

/// Every parameter count that is known is a number.
pub open spec fn counts_are_numbers(tags: Seq<TagInfo>) -> bool {
    forall|i: int|
        0 <= i < tags.len() ==> ((#[trigger] tags[i]).param_billions matches Some(p)
            ==> p.is_number())
}

/// Tags whose known parameter counts are numbers are put in a consistent order.
pub proof fn law_numbers_are_ordered(tags: Seq<TagInfo>, has_instruct: bool, has_default: bool)
    requires
        counts_are_numbers(tags),
    ensures
        order::is_strict_order_on(tags, rank_order(has_instruct, has_default)),
{
    let before = rank_order(has_instruct, has_default);
    assert forall|i: int, j: int|
        0 <= i < tags.len() && 0 <= j < tags.len() && #[trigger] before(
            tags[i],
            tags[j],
        ) implies !before(tags[j], tags[i]) by {
        let a = tags[i].tag@;
        let b = tags[j].tag@;
        if text::text_less(a, b) && text::text_less(b, a) {
            text::lemma_text_less_transitive(a, b, a);
            text::lemma_text_less_irreflexive(a);
        }
    }
    assert forall|i: int, j: int, k: int|
        #![trigger before(tags[i], tags[k]), before(tags[j], tags[k])]
        0 <= i < tags.len() && 0 <= j < tags.len() && 0 <= k < tags.len() && before(
            tags[i],
            tags[k],
        ) implies before(tags[i], tags[j]) || before(tags[j], tags[k]) by {
        let a = tags[i].tag@;
        let b = tags[j].tag@;
        let c = tags[k].tag@;
        text::lemma_text_less_total(a, b);
        text::lemma_text_less_total(b, c);
        if text::text_less(b, a) && text::text_less(a, c) {
            text::lemma_text_less_transitive(b, a, c);
        }
    }
}

/// Ranking keeps every tag once.
pub proof fn law_ranking_keeps_every_tag(tags: Seq<TagInfo>) -> (from: Seq<int>)
    ensures
        order::is_rearrangement(tags, ranked(tags), from),
{
    let before = rank_order(any_instruct(tags), any_default_quantized(tags));
    order::lemma_sorted_keeps(tags, before);
    order::sorted_from(tags, before)
}

/// Ranking keeps every tag once, puts better tags first, and leaves tags of
/// equal rank in the order of the tag list, wherever the tags can be put in order
/// at all: counts that are not numbers tie with all others and can close a circle.
pub proof fn law_ranking_is_stable(tags: Seq<TagInfo>) -> (from: Seq<int>)
    requires
        order::is_strict_order_on(
            tags,
            rank_order(any_instruct(tags), any_default_quantized(tags)),
        ),
    ensures
        order::is_stable_order(
            tags,
            ranked(tags),
            from,
            rank_order(any_instruct(tags), any_default_quantized(tags)),
        ),
{
    order::lemma_sorted_is_stable(
        tags,
        rank_order(any_instruct(tags), any_default_quantized(tags)),
    )
}

/// The ranking policy: where a model has tags for assistants, they all come
/// before the tags of base models; among tags of one kind the default
/// quantization comes first; and, where the tags can be put in order at all, within
/// a group the larger parameter count does.
pub proof fn law_ranking_policy(tags: Seq<TagInfo>, i: int, j: int)
    requires
        0 <= i < j < tags.len(),
    ensures
        ({
            let a = ranked(tags)[i];
            let b = ranked(tags)[j];
            &&& ranked(tags).len() == tags.len()
            &&& !a.is_instruct ==> !b.is_instruct
            &&& a.is_instruct == b.is_instruct && !a.is_default_quantized()
                ==> !b.is_default_quantized()
            &&& order::is_strict_order_on(
                tags,
                rank_order(any_instruct(tags), any_default_quantized(tags)),
            ) && a.is_instruct == b.is_instruct && a.is_default_quantized()
                == b.is_default_quantized() ==> !more_params(b.param_billions, a.param_billions)
        }),
{
    let has_instruct = any_instruct(tags);
    let has_default = any_default_quantized(tags);
    let before = rank_order(has_instruct, has_default);
    let level = |tag: TagInfo| group(tag, has_instruct, has_default);
    let from = law_ranking_keeps_every_tag(tags);
    let a = ranked(tags)[i];
    let b = ranked(tags)[j];
    order::lemma_sorted_by_level(tags, before, level);
    assert(level(a) <= level(b));
    assert(0 <= from[i] < tags.len() && a == tags[from[i]]);
    assert(0 <= from[j] < tags.len() && b == tags[from[j]]);
    if order::is_strict_order_on(tags, before) {
        let stable = law_ranking_is_stable(tags);
        assert(0 <= stable[i] < tags.len() && a == tags[stable[i]]);
        assert(0 <= stable[j] < tags.len() && b == tags[stable[j]]);
        assert(before(a, b) || !before(b, a));
        if before(tags[stable[i]], tags[stable[j]]) {
            assert(!before(tags[stable[j]], tags[stable[i]]));
        }
        assert(!before(b, a));
    }
}

/// No two tags have the same name.
pub open spec fn names_differ(tags: Seq<TagInfo>) -> bool {
    forall|i: int, j: int|
        0 <= i < j < tags.len() ==> (#[trigger] tags[i]).tag@ != (#[trigger] tags[j]).tag@
}

/// Two tag lists hold the same tags, each once; `from[i]` says which tag of the
/// first stands at `i` in the second.
pub open spec fn lists_same_tags(a: Seq<TagInfo>, b: Seq<TagInfo>, from: Seq<int>) -> bool {
    &&& a.len() == b.len()
    &&& from.len() == a.len()
    &&& forall|i: int|
        0 <= i < from.len() ==> 0 <= #[trigger] from[i] < a.len() && a[from[i]].is_like(b[i])
    &&& forall|i: int, j: int| 0 <= i < j < from.len() ==> from[i] != from[j]
}

/// Tags of different names that can be put in order at all are ranked the same in
/// whichever order the tag list has them.
pub proof fn law_ranking_ignores_list_order(a: Seq<TagInfo>, b: Seq<TagInfo>, from: Seq<int>)
    requires
        order::is_rearrangement(a, b, from),
        names_differ(a),
        order::is_strict_order_on(a, rank_order(any_instruct(a), any_default_quantized(a))),
    ensures
        ranked(a) == ranked(b),
{
    let before = rank_order(any_instruct(a), any_default_quantized(a));
    assert(any_instruct(a) == any_instruct(b) && any_default_quantized(a) == any_default_quantized(
        b,
    )) by {
        assert(forall|i: int| 0 <= i < from.len() ==> 0 <= #[trigger] from[i] < a.len() && b[i] == a[from[i]]);
        if any_instruct(a) {
            let k = choose|k: int| 0 <= k < a.len() && (#[trigger] a[k]).is_instruct;
            let i = order::lemma_every_place_is_taken(from, k);
            assert(b[i].is_instruct);
        }
        if any_instruct(b) {
            let i = choose|i: int| 0 <= i < b.len() && (#[trigger] b[i]).is_instruct;
            assert(a[from[i]].is_instruct);
        }
        if any_default_quantized(a) {
            let k = choose|k: int| 0 <= k < a.len() && (#[trigger] a[k]).is_default_quantized();
            let i = order::lemma_every_place_is_taken(from, k);
            assert(b[i].is_default_quantized());
        }
        if any_default_quantized(b) {
            let i = choose|i: int| 0 <= i < b.len() && (#[trigger] b[i]).is_default_quantized();
            assert(a[from[i]].is_default_quantized());
        }
    }
    assert(order::decides_all(a, before)) by {
        assert forall|i: int, j: int|
            0 <= i < a.len() && 0 <= j < a.len() && i != j implies #[trigger] before(a[i], a[j])
            || before(a[j], a[i]) by {
            text::lemma_text_less_total(a[i].tag@, a[j].tag@);
            if i < j {
                assert(a[i].tag@ != a[j].tag@);
            } else {
                assert(a[j].tag@ != a[i].tag@);
            }
        }
    }
    order::lemma_sorted_ignores_order(a, b, from, before);
}

/// Where two lists hold like tags at each place, so do their rankings.
proof fn lemma_like_tags_rank_alike(a: Seq<TagInfo>, b: Seq<TagInfo>)
    requires
        a.len() == b.len(),
        forall|i: int| 0 <= i < a.len() ==> (#[trigger] a[i]).is_like(b[i]),
    ensures
        ranked(a).len() == a.len(),
        ranked(b).len() == a.len(),
        forall|i: int| 0 <= i < a.len() ==> (#[trigger] ranked(a)[i]).is_like(ranked(b)[i]),
{
    assert forall|x: TagInfo, y: TagInfo| #[trigger] x.is_like(y) implies x.is_default_quantized()
        == y.is_default_quantized() by {}
    assert(any_instruct(a) == any_instruct(b)) by {
        assert(forall|i: int| 0 <= i < a.len() ==> (#[trigger] a[i]).is_instruct == b[i].is_instruct);
        if any_instruct(b) {
            let i = choose|i: int| 0 <= i < b.len() && (#[trigger] b[i]).is_instruct;
            assert(a[i].is_instruct);
        }
    }
    assert(any_default_quantized(a) == any_default_quantized(b)) by {
        if any_default_quantized(a) {
            let i = choose|i: int| 0 <= i < a.len() && (#[trigger] a[i]).is_default_quantized();
            assert(a[i].is_like(b[i]));
            assert(b[i].is_default_quantized());
        }
        if any_default_quantized(b) {
            let i = choose|i: int| 0 <= i < b.len() && (#[trigger] b[i]).is_default_quantized();
            assert(a[i].is_like(b[i]));
            assert(a[i].is_default_quantized());
        }
    }
    let before = rank_order(any_instruct(a), any_default_quantized(a));
    let like = |x: TagInfo, y: TagInfo| x.is_like(y);
    assert forall|w: TagInfo, x: TagInfo, y: TagInfo, z: TagInfo|
        #![trigger like(w, y), like(x, z)]
        like(w, y) && like(x, z) implies before(w, x) == before(y, z) by {}
    assert forall|i: int| 0 <= i < a.len() implies like(#[trigger] a[i], b[i]) by {}
    order::lemma_sorted_respects(a, b, before, like);
    assert forall|i: int| 0 <= i < a.len() implies (#[trigger] ranked(a)[i]).is_like(
        ranked(b)[i],
    ) by {
        assert(like(ranked(a)[i], ranked(b)[i]));
    }
}

/// The same of two lists that hold the same tags text for text.
pub proof fn law_ranking_ignores_list_order_of_like_tags(
    a: Seq<TagInfo>,
    b: Seq<TagInfo>,
    from: Seq<int>,
)
    requires
        lists_same_tags(a, b, from),
        names_differ(a),
        order::is_strict_order_on(a, rank_order(any_instruct(a), any_default_quantized(a))),
    ensures
        ranked(a).len() == a.len(),
        ranked(b).len() == a.len(),
        forall|i: int| 0 <= i < a.len() ==> (#[trigger] ranked(a)[i]).is_like(ranked(b)[i]),
{
    let c = Seq::new(a.len(), |i: int| a[from[i]]);
    assert(order::is_rearrangement(a, c, from));
    law_ranking_ignores_list_order(a, c, from);
    assert forall|i: int| 0 <= i < c.len() implies (#[trigger] c[i]).is_like(b[i]) by {
        assert(a[from[i]].is_like(b[i]));
    }
    lemma_like_tags_rank_alike(c, b);
}

/// The ranking in full, where every known count is a number that is not negative:
/// assistants before base models, then the default quantization before others, then
/// known counts before unknown ones and larger before smaller, then by name.
pub proof fn law_ranking_in_full(tags: Seq<TagInfo>, i: int, j: int)
    requires
        0 <= i < j < tags.len(),
        forall|k: int|
            0 <= k < tags.len() ==> ((#[trigger] tags[k]).param_billions matches Some(p) ==> p.bits
                <= 0x7ff0_0000_0000_0000),
    ensures
        ({
            let a = ranked(tags)[i];
            let b = ranked(tags)[j];
            &&& ranked(tags).len() == tags.len()
            &&& !a.is_instruct ==> !b.is_instruct
            &&& a.is_instruct == b.is_instruct && !a.is_default_quantized()
                ==> !b.is_default_quantized()
            &&& a.is_instruct == b.is_instruct && a.is_default_quantized()
                == b.is_default_quantized() ==> {
                &&& a.param_billions is None ==> b.param_billions is None
                &&& a.param_billions matches Some(p) ==> (b.param_billions matches Some(q)
                    ==> p.bits >= q.bits)
                &&& a.param_billions == b.param_billions ==> a.tag@ == b.tag@ || text::text_less(
                    a.tag@,
                    b.tag@,
                )
            }
        }),
{
    let has_instruct = any_instruct(tags);
    let has_default = any_default_quantized(tags);
    let before = rank_order(has_instruct, has_default);
    law_numbers_are_ordered(tags, has_instruct, has_default);
    law_ranking_policy(tags, i, j);
    let from = law_ranking_is_stable(tags);
    let a = ranked(tags)[i];
    let b = ranked(tags)[j];
    assert(0 <= from[i] < tags.len() && a == tags[from[i]]);
    assert(0 <= from[j] < tags.len() && b == tags[from[j]]);
    assert(before(a, b) || !before(b, a));
    text::lemma_text_less_total(a.tag@, b.tag@);
}

} // verus!
