//! A registry that asks another one only once for the same thing.

use vstd::prelude::*;

use crate::error::ResolverError;
use crate::registry::{Lookup, Registry};
use crate::text;
use crate::types::TagInfo;

verus! {

/// Remembers the tags and sizes that `inner` gave. Failures are not remembered.
pub struct CachedRegistry<R: Registry> {
    inner: R,
    tags: Vec<(String, Vec<TagInfo>)>,
    sizes: Vec<(String, String, (u64, u64))>,
    log: Ghost<Seq<Lookup>>,
}

/// The remembered tags by model; a later entry counts before an earlier one.
pub open spec fn tags_by_model(entries: Seq<(String, Vec<TagInfo>)>) -> Map<
    Seq<char>,
    Seq<TagInfo>,
>
    decreases entries.len(),
{
    if entries.len() == 0 {
        Map::empty()
    } else {
        tags_by_model(entries.drop_last()).insert(entries.last().0@, entries.last().1@)
    }
}

/// The remembered sizes by model and tag.
pub open spec fn sizes_by_tag(entries: Seq<(String, String, (u64, u64))>) -> Map<
    (Seq<char>, Seq<char>),
    (u64, u64),
>
    decreases entries.len(),
{
    if entries.len() == 0 {
        Map::empty()
    } else {
        sizes_by_tag(entries.drop_last()).insert(
            (entries.last().0@, entries.last().1@),
            entries.last().2,
        )
    }
}

/// The reply to the one question for a model's tags by which `after` goes beyond
/// `before`, if that is how they differ.
pub open spec fn fetched_tags(before: Seq<Lookup>, after: Seq<Lookup>, model: Seq<char>) -> Option<
    Result<Vec<TagInfo>, ResolverError>,
> {
    match after.last() {
        Lookup::Tags { model: m, reply } if m == model && after == before.push(after.last()) =>
            Some(reply),
        _ => None,
    }
}

fn copy_tags(tags: &Vec<TagInfo>) -> (r: Vec<TagInfo>)
    ensures
        r@ == tags@,
{
    let mut out: Vec<TagInfo> = Vec::new();
    for i in 0..tags.len()
        invariant
            out@ =~= tags@.take(i as int),
    {
        out.push(tags[i].clone());
    }
    out
}

fn find_tags(entries: &Vec<(String, Vec<TagInfo>)>, model: &str) -> (r: Option<Vec<TagInfo>>)
    ensures
        match r {
            Some(tags) => tags_by_model(entries@).dom().contains(model@) && tags_by_model(
                entries@,
            )[model@] == tags@,
            None => !tags_by_model(entries@).dom().contains(model@),
        },
{
    let mut i: usize = entries.len();
    assert(entries@.take(i as int) =~= entries@);
    while i > 0
        invariant
            i <= entries@.len(),
            tags_by_model(entries@.take(i as int)).dom().contains(model@) == tags_by_model(
                entries@,
            ).dom().contains(model@),
            tags_by_model(entries@).dom().contains(model@) ==> tags_by_model(
                entries@.take(i as int),
            )[model@] == tags_by_model(entries@)[model@],
        decreases i,
    {
        assert(entries@.take(i as int).drop_last() =~= entries@.take(i - 1));
        i = i - 1;
        if text::same_text(entries[i].0.as_str(), model) {
            return Some(copy_tags(&entries[i].1));
        }
    }
    None
}

fn find_sizes(entries: &Vec<(String, String, (u64, u64))>, model: &str, tag: &str) -> (r: Option<
    (u64, u64),
>)
    ensures
        match r {
            Some(sizes) => sizes_by_tag(entries@).dom().contains((model@, tag@)) && sizes_by_tag(
                entries@,
            )[(model@, tag@)] == sizes,
            None => !sizes_by_tag(entries@).dom().contains((model@, tag@)),
        },
{
    let mut i: usize = entries.len();
    assert(entries@.take(i as int) =~= entries@);
    while i > 0
        invariant
            i <= entries@.len(),
            sizes_by_tag(entries@.take(i as int)).dom().contains((model@, tag@)) == sizes_by_tag(
                entries@,
            ).dom().contains((model@, tag@)),
            sizes_by_tag(entries@).dom().contains((model@, tag@)) ==> sizes_by_tag(
                entries@.take(i as int),
            )[(model@, tag@)] == sizes_by_tag(entries@)[(model@, tag@)],
        decreases i,
    {
        assert(entries@.take(i as int).drop_last() =~= entries@.take(i - 1));
        i = i - 1;
        if text::same_text(entries[i].0.as_str(), model) && text::same_text(
            entries[i].1.as_str(),
            tag,
        ) {
            return Some(entries[i].2);
        }
    }
    None
}

impl<R: Registry> CachedRegistry<R> {
    /// All that the registry behind the cache was asked.
    pub closed spec fn passed_on(&self) -> Seq<Lookup> {
        self.inner.asked()
    }

    /// The remembered tags of each model.
    pub closed spec fn known_tags(&self) -> Map<Seq<char>, Seq<TagInfo>> {
        tags_by_model(self.tags@)
    }

    /// The remembered sizes of each tag.
    pub closed spec fn known_sizes(&self) -> Map<(Seq<char>, Seq<char>), (u64, u64)> {
        sizes_by_tag(self.sizes@)
    }

    pub fn new(inner: R) -> (r: CachedRegistry<R>)
        ensures
            r.asked() == Seq::<Lookup>::empty(),
            r.passed_on() == inner.asked(),
            r.known_tags() == Map::<Seq<char>, Seq<TagInfo>>::empty(),
            r.known_sizes() == Map::<(Seq<char>, Seq<char>), (u64, u64)>::empty(),
    {
        CachedRegistry { inner, tags: Vec::new(), sizes: Vec::new(), log: Ghost(Seq::empty()) }
    }

    /// The registry behind the cache.
    pub fn into_inner(self) -> (r: R)
        ensures
            r.asked() == self.passed_on(),
    {
        self.inner
    }
}

impl<R: Registry> Registry for CachedRegistry<R> {
    closed spec fn asked(&self) -> Seq<Lookup> {
        self.log@
    }

    fn list_tags(&mut self, model: &str) -> (r: Result<Vec<TagInfo>, ResolverError>)
        ensures
            final(self).known_sizes() == old(self).known_sizes(),
            old(self).known_tags().dom().contains(model@) ==> (r matches Ok(tags)
                && tags@ == old(self).known_tags()[model@]
                && final(self).passed_on() == old(self).passed_on()
                && final(self).known_tags() == old(self).known_tags()),
            !old(self).known_tags().dom().contains(model@) ==> (fetched_tags(
                old(self).passed_on(),
                final(self).passed_on(),
                model@,
            ) matches Some(reply) && match reply {
                Ok(tags) => (r matches Ok(t) && t@ == tags@)
                    && final(self).known_tags() == old(self).known_tags().insert(model@, tags@),
                Err(e) => r == Err::<Vec<TagInfo>, _>(e)
                    && final(self).known_tags() == old(self).known_tags(),
            }),
    {
        let ghost before = self.tags@;
        let reply = match find_tags(&self.tags, model) {
            Some(tags) => Ok(tags),
            None => {
                let fetched = self.inner.list_tags(model);
                match fetched {
                    Ok(tags) => {
                        let kept = copy_tags(&tags);
                        self.tags.push((model.to_string(), kept));
                        assert(self.tags@.drop_last() =~= before);
                        Ok(tags)
                    },
                    Err(e) => Err(e),
                }
            },
        };
        self.log = Ghost(self.log@.push(Lookup::Tags { model: model@, reply }));
        reply
    }

    fn get_manifest_size(&mut self, model: &str, tag: &str) -> (r: Result<
        (u64, u64),
        ResolverError,
    >)
        ensures
            final(self).known_tags() == old(self).known_tags(),
            old(self).known_sizes().dom().contains((model@, tag@)) ==> r == Ok::<_, ResolverError>(
                old(self).known_sizes()[(model@, tag@)],
            ) && final(self).passed_on() == old(self).passed_on() && final(self).known_sizes()
                == old(self).known_sizes(),
            !old(self).known_sizes().dom().contains((model@, tag@)) ==> final(self).passed_on()
                == old(self).passed_on().push(
                Lookup::Manifest { model: model@, tag: tag@, reply: r },
            ) && final(self).known_sizes() == (match r {
                Ok(sizes) => old(self).known_sizes().insert((model@, tag@), sizes),
                Err(_) => old(self).known_sizes(),
            }),
    {
        let ghost before = self.sizes@;
        let reply = match find_sizes(&self.sizes, model, tag) {
            Some(sizes) => Ok(sizes),
            None => {
                let fetched = self.inner.get_manifest_size(model, tag);
                if let Ok(sizes) = &fetched {
                    self.sizes.push((model.to_string(), tag.to_string(), *sizes));
                    assert(self.sizes@.drop_last() =~= before);
                }
                fetched
            },
        };
        self.log = Ghost(
            self.log@.push(Lookup::Manifest { model: model@, tag: tag@, reply }),
        );
        reply
    }
}

/// What was fetched was asked for exactly once, and for the model in question.
pub proof fn law_one_question_is_passed_on(
    before: Seq<Lookup>,
    after: Seq<Lookup>,
    model: Seq<char>,
)
    ensures
        fetched_tags(before, after, model) matches Some(reply) ==> after == before.push(
            Lookup::Tags { model, reply },
        ),
{
}

/// What was remembered last of a model or a tag is what is known of it, and nothing
/// else that is known changes.
pub proof fn law_the_last_entry_counts(
    tags: Seq<(String, Vec<TagInfo>)>,
    tag_entry: (String, Vec<TagInfo>),
    sizes: Seq<(String, String, (u64, u64))>,
    size_entry: (String, String, (u64, u64)),
)
    ensures
        tags_by_model(tags.push(tag_entry)) == tags_by_model(tags).insert(
            tag_entry.0@,
            tag_entry.1@,
        ),
        sizes_by_tag(sizes.push(size_entry)) == sizes_by_tag(sizes).insert(
            (size_entry.0@, size_entry.1@),
            size_entry.2,
        ),
        tags_by_model(Seq::empty()) == Map::<Seq<char>, Seq<TagInfo>>::empty(),
        sizes_by_tag(Seq::empty()) == Map::<(Seq<char>, Seq<char>), (u64, u64)>::empty(),
{
    assert(tags.push(tag_entry).drop_last() =~= tags);
    assert(sizes.push(size_entry).drop_last() =~= sizes);
}

} // verus!
