//! The parts of a parallel map that do not run in parallel: how many workers there
//! are, which item a worker takes next, and how the results are put in order.

use vstd::prelude::*;

use crate::order;

verus! {

/// How many workers share `items` items: as many as wished for, but at least one
/// and no more than there are items; none where there is nothing to do.
pub fn worker_count(concurrency: usize, items: usize) -> (r: usize)
    ensures
        r == (if items == 0 {
            0
        } else if concurrency < 1 {
            1
        } else if concurrency > items {
            items
        } else {
            concurrency
        }),
{
    if items == 0 {
        0
    } else if concurrency < 1 {
        1
    } else if concurrency > items {
        items
    } else {
        concurrency
    }
}

/// The items that are still to be handed out, by position.
#[derive(Debug)]
pub struct Handout {
    next: usize,
    items: usize,
}

pub struct HandoutView {
    pub claimed: nat,
    pub items: nat,
}

impl View for Handout {
    type V = HandoutView;

    closed spec fn view(&self) -> HandoutView {
        HandoutView { claimed: self.next as nat, items: self.items as nat }
    }
}

impl Handout {
    pub fn new(items: usize) -> (r: Handout)
        ensures
            r@ == (HandoutView { claimed: 0, items: items as nat }),
    {
        Handout { next: 0, items }
    }

    /// The position of the next item, as long as there is one. Whoever claims, the
    /// items go out in order and each goes out once.
    pub fn claim(&mut self) -> (r: Option<usize>)
        ensures
            if old(self)@.claimed < old(self)@.items {
                &&& r matches Some(i) && i == old(self)@.claimed
                &&& final(self)@ == (HandoutView { claimed: old(self)@.claimed + 1, ..old(self)@ })
            } else {
                r is None && final(self)@ == old(self)@
            },
    {
        if self.next < self.items {
            let i: usize = self.next;
            self.next = i + 1;
            Some(i)
        } else {
            None
        }
    }
}

pub open spec fn index_order<U>() -> spec_fn((usize, U), (usize, U)) -> bool {
    |a: (usize, U), b: (usize, U)| a.0 < b.0
}

/// The results in the order of their positions.
pub open spec fn restored<U>(tagged: Seq<(usize, U)>) -> Seq<U> {
    Seq::new(tagged.len(), |i: int| order::sorted(tagged, index_order::<U>())[i].1)
}

/// Puts results, each tagged with the position of its item, in the order of the
/// items.
pub fn restore_order<U>(tagged: Vec<(usize, U)>) -> (r: Vec<U>)
    ensures
        r@ == restored(tagged@),
{
    let before = |a: &(usize, U), b: &(usize, U)| -> (r: bool)
        ensures
            r == (a.0 < b.0),
        { a.0 < b.0 };
    let ordered = order::sort(tagged, before, Ghost(index_order::<U>()));
    proof {
        let from = order::lemma_sorted_is_stable(tagged@, index_order::<U>());
    }
    let mut out: Vec<U> = Vec::new();
    for pair in it: ordered
        invariant
            it.seq() == ordered@,
            out@ =~= Seq::new(it.index() as nat, |i: int| ordered@[i].1),
    {
        out.push(pair.1);
    }
    out
}

/// Every position below the number of results is taken once.
pub open spec fn is_complete<U>(tagged: Seq<(usize, U)>) -> bool {
    &&& forall|j: int| 0 <= j < tagged.len() ==> (#[trigger] tagged[j]).0 < tagged.len()
    &&& forall|i: int, j: int|
        0 <= i < tagged.len() && 0 <= j < tagged.len() && i != j ==> (#[trigger] tagged[i]).0 != (
        #[trigger] tagged[j]).0
}

proof fn lemma_climbs(s: Seq<int>, i: int)
    requires
        forall|a: int, b: int| 0 <= a < b < s.len() ==> #[trigger] s[a] < #[trigger] s[b],
        forall|a: int| 0 <= a < s.len() ==> 0 <= #[trigger] s[a] < s.len(),
        0 <= i < s.len(),
    ensures
        s[i] >= i,
    decreases i,
{
    if i > 0 {
        lemma_climbs(s, i - 1);
        assert(s[i - 1] < s[i]);
    }
}

proof fn lemma_descends(s: Seq<int>, i: int)
    requires
        forall|a: int, b: int| 0 <= a < b < s.len() ==> #[trigger] s[a] < #[trigger] s[b],
        forall|a: int| 0 <= a < s.len() ==> 0 <= #[trigger] s[a] < s.len(),
        0 <= i < s.len(),
    ensures
        s[i] <= i,
    decreases s.len() - i,
{
    if i < s.len() - 1 {
        lemma_descends(s, i + 1);
        assert(s[i] < s[i + 1]);
    }
}

/// However the items were shared out, the results come back in the order of the
/// items: the result tagged with a position stands at that position.
pub proof fn law_results_keep_the_order_of_items<U>(tagged: Seq<(usize, U)>, j: int)
    requires
        is_complete(tagged),
        0 <= j < tagged.len(),
    ensures
        restored(tagged).len() == tagged.len(),
        restored(tagged)[tagged[j].0 as int] == tagged[j].1,
{
    let before = index_order::<U>();
    let out = order::sorted(tagged, before);
    let from = order::lemma_sorted_is_stable(tagged, before);
    let places = Seq::new(out.len(), |i: int| out[i].0 as int);
    assert forall|a: int, b: int| 0 <= a < b < places.len() implies #[trigger] places[a]
        < #[trigger] places[b] by {
        assert(out[a] == tagged[from[a]] && out[b] == tagged[from[b]]);
        assert(from[a] != from[b]);
        assert(before(out[a], out[b]) || !before(out[b], out[a]));
    }
    assert forall|a: int| 0 <= a < places.len() implies 0 <= #[trigger] places[a] < places.len() by {
        assert(out[a] == tagged[from[a]]);
    }
    let k = tagged[j].0 as int;
    lemma_climbs(places, k);
    lemma_descends(places, k);
    assert(out[k].0 == k);
    assert(out[k] == tagged[from[k]]);
    assert(from[k] == j);
}

/// What the worker `w` hands in where the item at `k` was claimed by the worker
/// `takers[k]`: a result for each of its items, tagged with the position.
pub open spec fn share<T, U>(
    takers: Seq<nat>,
    w: nat,
    items: Seq<T>,
    work: spec_fn(T) -> U,
) -> Seq<(usize, U)>
    decreases takers.len(),
{
    if takers.len() == 0 {
        Seq::empty()
    } else {
        let k = takers.len() - 1;
        let rest = share(takers.drop_last(), w, items, work);
        if takers[k] == w {
            rest.push((k as usize, work(items[k])))
        } else {
            rest
        }
    }
}

/// What the workers below `workers` hand in, one worker after the other.
pub open spec fn gathered<T, U>(
    takers: Seq<nat>,
    workers: nat,
    items: Seq<T>,
    work: spec_fn(T) -> U,
) -> Seq<(usize, U)>
    decreases workers,
{
    if workers == 0 {
        Seq::empty()
    } else {
        let w = (workers - 1) as nat;
        gathered(takers, w, items, work) + share(takers, w, items, work)
    }
}

proof fn lemma_share<T, U>(takers: Seq<nat>, w: nat, items: Seq<T>, work: spec_fn(T) -> U)
    requires
        takers.len() <= usize::MAX,
    ensures
        ({
            let s = share(takers, w, items, work);
            &&& forall|j: int|
                0 <= j < s.len() ==> (#[trigger] s[j]).0 < takers.len() && takers[s[j].0 as int] == w
                    && s[j].1 == work(items[s[j].0 as int])
            &&& forall|i: int, j: int|
                0 <= i < j < s.len() ==> (#[trigger] s[i]).0 < (#[trigger] s[j]).0
            &&& forall|k: int|
                0 <= k < takers.len() && #[trigger] takers[k] == w ==> exists|j: int|
                    0 <= j < s.len() && (#[trigger] s[j]).0 == k
        }),
    decreases takers.len(),
{
    if takers.len() > 0 {
        let last = takers.len() - 1;
        let shorter = takers.drop_last();
        let rest = share(shorter, w, items, work);
        let s = share(takers, w, items, work);
        lemma_share(shorter, w, items, work);
        assert(forall|k: int| 0 <= k < last ==> shorter[k] == takers[k]);
        assert(forall|j: int| 0 <= j < rest.len() ==> s[j] == rest[j]);
        assert forall|k: int| 0 <= k < takers.len() && #[trigger] takers[k] == w implies exists|j: int|
            0 <= j < s.len() && (#[trigger] s[j]).0 == k by {
            if k == last {
                assert(s[rest.len() as int].0 == k);
            } else {
                assert(shorter[k] == w);
                let j = choose|j: int| 0 <= j < rest.len() && (#[trigger] rest[j]).0 == k;
                assert(s[j].0 == k);
            }
        }
    }
}

proof fn lemma_gathered<T, U>(
    takers: Seq<nat>,
    workers: nat,
    items: Seq<T>,
    work: spec_fn(T) -> U,
)
    requires
        takers.len() <= usize::MAX,
    ensures
        ({
            let s = gathered(takers, workers, items, work);
            &&& forall|j: int|
                0 <= j < s.len() ==> (#[trigger] s[j]).0 < takers.len() && takers[s[j].0 as int]
                    < workers && s[j].1 == work(items[s[j].0 as int])
            &&& forall|i: int, j: int|
                0 <= i < j < s.len() ==> (#[trigger] s[i]).0 != (#[trigger] s[j]).0
            &&& forall|k: int|
                0 <= k < takers.len() && #[trigger] takers[k] < workers ==> exists|j: int|
                    0 <= j < s.len() && (#[trigger] s[j]).0 == k
        }),
    decreases workers,
{
    if workers > 0 {
        let w = (workers - 1) as nat;
        let rest = gathered(takers, w, items, work);
        let own = share(takers, w, items, work);
        let s = gathered(takers, workers, items, work);
        lemma_gathered(takers, w, items, work);
        lemma_share(takers, w, items, work);
        assert forall|j: int| 0 <= j < s.len() implies s[j] == (if j < rest.len() {
            rest[j]
        } else {
            own[j - rest.len()]
        }) by {}
        assert forall|k: int|
            0 <= k < takers.len() && #[trigger] takers[k] < workers implies exists|j: int|
            0 <= j < s.len() && (#[trigger] s[j]).0 == k by {
            if takers[k] == w {
                let j = choose|j: int| 0 <= j < own.len() && (#[trigger] own[j]).0 == k;
                assert(s[rest.len() + j].0 == k);
            } else {
                let j = choose|j: int| 0 <= j < rest.len() && (#[trigger] rest[j]).0 == k;
                assert(s[j].0 == k);
            }
        }
    }
}

/// Whichever worker claims which item, each item is worked on once, and what is
/// handed in comes back as a serial map over the items would give it.
pub proof fn law_parallel_map_is_serial<T, U>(
    takers: Seq<nat>,
    workers: nat,
    items: Seq<T>,
    work: spec_fn(T) -> U,
)
    requires
        takers.len() == items.len() <= usize::MAX,
        forall|k: int| 0 <= k < takers.len() ==> #[trigger] takers[k] < workers,
    ensures
        is_complete(gathered(takers, workers, items, work)),
        gathered(takers, workers, items, work).len() == items.len(),
        restored(gathered(takers, workers, items, work)) == items.map_values(work),
{
    let n = items.len() as int;
    let tagged = gathered(takers, workers, items, work);
    lemma_gathered(takers, workers, items, work);
    let places = Seq::new(tagged.len(), |j: int| tagged[j].0 as int);
    assert(places.no_duplicates());
    assert forall|k: int| #[trigger] places.to_set().contains(k) <==> vstd::set_lib::set_int_range(
        0,
        n,
    ).contains(k) by {
        if places.to_set().contains(k) {
            let j = choose|j: int| 0 <= j < places.len() && places[j] == k;
            assert(tagged[j].0 == k);
        }
        if 0 <= k < n {
            assert(takers[k] < workers);
            let j = choose|j: int| 0 <= j < tagged.len() && (#[trigger] tagged[j]).0 == k;
            assert(places[j] == k);
        }
    }
    assert(places.to_set() =~= vstd::set_lib::set_int_range(0, n));
    places.unique_seq_to_set();
    vstd::set_lib::lemma_int_range(0, n);
    assert(tagged.len() == n);
    let out = restored(tagged);
    assert forall|k: int| 0 <= k < n implies #[trigger] out[k] == items.map_values(work)[k] by {
        assert(takers[k] < workers);
        let j = choose|j: int| 0 <= j < tagged.len() && (#[trigger] tagged[j]).0 == k;
        law_results_keep_the_order_of_items(tagged, j);
    }
    assert(out =~= items.map_values(work));
}

} // verus!
