//! Stable sorting by a relation "comes before".

use vstd::prelude::*;

verus! {

/// `x` put into `s` behind every element that it does not come before.
pub open spec fn inserted<T>(s: Seq<T>, x: T, before: spec_fn(T, T) -> bool) -> Seq<T>
    decreases s.len(),
{
    if s.len() > 0 && before(x, s.last()) {
        inserted(s.drop_last(), x, before).push(s.last())
    } else {
        s.push(x)
    }
}

/// The elements of `s` sorted by `before`, those that come before neither of
/// each other in the order in which they stand in `s`.
pub open spec fn sorted<T>(s: Seq<T>, before: spec_fn(T, T) -> bool) -> Seq<T>
    decreases s.len(),
{
    if s.len() == 0 {
        s
    } else {
        inserted(sorted(s.drop_last(), before), s.last(), before)
    }
}

/// What sorting asks of a relation on the elements of `s`: none comes before one
/// that comes before it, and what lies between two elements is on the far side of
/// one of them.
pub open spec fn is_strict_order_on<T>(s: Seq<T>, before: spec_fn(T, T) -> bool) -> bool {
    &&& forall|i: int, j: int|
        0 <= i < s.len() && 0 <= j < s.len() && #[trigger] before(s[i], s[j]) ==> !before(s[j], s[i])
    &&& forall|i: int, j: int, k: int|
        #![trigger before(s[i], s[k]), before(s[j], s[k])]
        0 <= i < s.len() && 0 <= j < s.len() && 0 <= k < s.len() && before(s[i], s[k])
            ==> before(s[i], s[j]) || before(s[j], s[k])
}

/// `out` holds the elements of `s`, each once; `from[i]` says which one stands
/// at `i`.
pub open spec fn is_rearrangement<T>(s: Seq<T>, out: Seq<T>, from: Seq<int>) -> bool {
    &&& out.len() == s.len()
    &&& from.len() == s.len()
    &&& forall|i: int| 0 <= i < from.len() ==> 0 <= #[trigger] from[i] < s.len() && out[i] == s[from[i]]
    &&& forall|i: int, j: int| 0 <= i < j < from.len() ==> from[i] != from[j]
}

/// A rearrangement in which earlier elements come before later ones or, where
/// neither does, stood before them in `s`.
pub open spec fn is_stable_order<T>(
    s: Seq<T>,
    out: Seq<T>,
    from: Seq<int>,
    before: spec_fn(T, T) -> bool,
) -> bool {
    &&& is_rearrangement(s, out, from)
    &&& forall|i: int, j: int|
        #![trigger out[i], out[j]]
        0 <= i < j < out.len() ==> before(out[i], out[j]) || (!before(out[j], out[i]) && from[i]
            < from[j])
}

/// Where `inserted` puts the new element.
pub open spec fn insertion_point<T>(s: Seq<T>, x: T, before: spec_fn(T, T) -> bool) -> int
    decreases s.len(),
{
    if s.len() > 0 && before(x, s.last()) {
        insertion_point(s.drop_last(), x, before)
    } else {
        s.len() as int
    }
}

pub proof fn lemma_inserted<T>(s: Seq<T>, x: T, before: spec_fn(T, T) -> bool)
    ensures
        ({
            let p = insertion_point(s, x, before);
            &&& 0 <= p <= s.len()
            &&& inserted(s, x, before) == s.insert(p, x)
            &&& p > 0 ==> !before(x, s[p - 1])
            &&& forall|i: int| p <= i < s.len() ==> before(x, s[i])
        }),
    decreases s.len(),
{
    if s.len() > 0 && before(x, s.last()) {
        lemma_inserted(s.drop_last(), x, before);
        let p = insertion_point(s, x, before);
        assert(s.drop_last().insert(p, x).push(s.last()) =~= s.insert(p, x));
        assert forall|i: int| p <= i < s.len() implies before(x, s[i]) by {
            if i < s.len() - 1 {
                assert(s.drop_last()[i] == s[i]);
            }
        }
    } else {
        assert(s.push(x) =~= s.insert(s.len() as int, x));
    }
}

/// A point with these two properties is the point of insertion.
proof fn lemma_insertion_point<T>(s: Seq<T>, x: T, before: spec_fn(T, T) -> bool, p: int)
    requires
        0 <= p <= s.len(),
        p > 0 ==> !before(x, s[p - 1]),
        forall|i: int| p <= i < s.len() ==> before(x, s[i]),
    ensures
        p == insertion_point(s, x, before),
    decreases s.len(),
{
    if p < s.len() {
        assert(before(x, s[s.len() - 1]));
        assert forall|i: int| p <= i < s.drop_last().len() implies before(x, s.drop_last()[i]) by {
            assert(before(x, s[i]));
        }
        lemma_insertion_point(s.drop_last(), x, before, p);
    }
}

/// Where each element of `sorted(s, before)` stood in `s`.
pub open spec fn sorted_from<T>(s: Seq<T>, before: spec_fn(T, T) -> bool) -> Seq<int>
    decreases s.len(),
{
    if s.len() == 0 {
        Seq::empty()
    } else {
        let rest = s.drop_last();
        sorted_from(rest, before).insert(
            insertion_point(sorted(rest, before), s.last(), before),
            s.len() - 1,
        )
    }
}

/// Sorting keeps every element once, whatever the relation.
pub proof fn lemma_sorted_keeps<T>(s: Seq<T>, before: spec_fn(T, T) -> bool)
    ensures
        is_rearrangement(s, sorted(s, before), sorted_from(s, before)),
    decreases s.len(),
{
    if s.len() > 0 {
        let rest = s.drop_last();
        let x = s.last();
        let last = s.len() - 1;
        let old = sorted(rest, before);
        let old_from = sorted_from(rest, before);
        lemma_sorted_keeps(rest, before);
        lemma_inserted(old, x, before);
        let p = insertion_point(old, x, before);
        let out = old.insert(p, x);
        let from = old_from.insert(p, last);
        assert forall|i: int| 0 <= i < from.len() implies 0 <= #[trigger] from[i] < s.len() && out[i]
            == s[from[i]] by {
            let k = if i < p { i } else { i - 1 };
            if i != p {
                assert(from[i] == old_from[k]);
                assert(out[i] == old[k]);
                assert(rest[old_from[k]] == s[old_from[k]]);
            }
        }
        assert forall|i: int, j: int| 0 <= i < j < from.len() implies from[i] != from[j] by {
            let k = if i < p { i } else { i - 1 };
            let l = if j < p { j } else { j - 1 };
            if i != p {
                assert(from[i] == old_from[k] && old_from[k] < last);
            }
            if j != p {
                assert(from[j] == old_from[l] && old_from[l] < last);
            }
        }
    }
}

/// Sorting by a relation that is a strict order on the elements is stable: every
/// element is kept once, smaller elements come first, and equals keep their order.
pub proof fn lemma_sorted_is_stable<T>(s: Seq<T>, before: spec_fn(T, T) -> bool) -> (from: Seq<int>)
    requires
        is_strict_order_on(s, before),
    ensures
        from == sorted_from(s, before),
        is_stable_order(s, sorted(s, before), from, before),
    decreases s.len(),
{
    let from = sorted_from(s, before);
    lemma_sorted_keeps(s, before);
    if s.len() > 0 {
        let rest = s.drop_last();
        let x = s.last();
        let last = s.len() - 1;
        let old = sorted(rest, before);
        assert(forall|i: int| 0 <= i < rest.len() ==> rest[i] == s[i]);
        let old_from = lemma_sorted_is_stable(rest, before);
        lemma_inserted(old, x, before);
        let p = insertion_point(old, x, before);
        let out = sorted(s, before);
        assert(out == old.insert(p, x));
        assert forall|i: int, j: int|
            #![trigger out[i], out[j]]
            0 <= i < j < out.len() implies before(out[i], out[j]) || (!before(out[j], out[i])
            && from[i] < from[j]) by {
            let k = if i < p { i } else { i - 1 };
            let l = if j < p { j } else { j - 1 };
            if i != p {
                assert(from[i] == old_from[k] && out[i] == old[k] && old_from[k] < last);
            }
            if j != p {
                assert(from[j] == old_from[l] && out[j] == old[l] && old_from[l] < last);
            }
            if i == p {
                assert(before(x, old[l]));
            } else if j == p {
                // `old[p - 1]` does not come after `x`, nor does `old[k]` after it
                let q = p - 1;
                assert(0 <= old_from[q] < rest.len());
                assert(old[q] == s[old_from[q]] && old[k] == s[old_from[k]] && x == s[last]);
                assert(!before(x, old[q]));
                if k < q {
                    assert(!before(old[q], old[k]));
                    if before(s[last], s[old_from[k]]) {
                        assert(before(s[last], s[old_from[q]]) || before(
                            s[old_from[q]],
                            s[old_from[k]],
                        ));
                    }
                }
            } else {
                assert(k < l);
            }
        }
    }
    from
}

/// Where the relation always puts a smaller level first, sorting does so too,
/// whatever the relation is among elements of one level.
pub proof fn lemma_sorted_by_level<T>(
    s: Seq<T>,
    before: spec_fn(T, T) -> bool,
    level: spec_fn(T) -> nat,
)
    requires
        forall|a: T, b: T|
            #![trigger level(a), level(b)]
            level(a) < level(b) ==> before(a, b) && !before(b, a),
    ensures
        forall|i: int, j: int|
            #![trigger sorted(s, before)[i], sorted(s, before)[j]]
            0 <= i < j < s.len() ==> level(sorted(s, before)[i]) <= level(sorted(s, before)[j]),
    decreases s.len(),
{
    if s.len() > 0 {
        let rest = s.drop_last();
        let x = s.last();
        let old = sorted(rest, before);
        lemma_sorted_by_level(rest, before, level);
        lemma_sorted_keeps(rest, before);
        lemma_inserted(old, x, before);
        let p = insertion_point(old, x, before);
        let out = sorted(s, before);
        assert forall|i: int, j: int|
            #![trigger out[i], out[j]]
            0 <= i < j < s.len() implies level(out[i]) <= level(out[j]) by {
            let k = if i < p { i } else { i - 1 };
            let l = if j < p { j } else { j - 1 };
            if i == p {
                assert(out[j] == old[l]);
                assert(before(x, old[l]));
            } else if j == p {
                assert(out[i] == old[k]);
                assert(!before(x, old[p - 1]));
                assert(level(old[p - 1]) <= level(x));
                if k < p - 1 {
                    assert(level(old[k]) <= level(old[p - 1]));
                }
            } else {
                assert(out[i] == old[k] && out[j] == old[l]);
            }
        }
    }
}

/// Positions that differ from each other, as many as there are places, leave no
/// place out.
pub proof fn lemma_every_place_is_taken(from: Seq<int>, k: int) -> (i: int)
    requires
        forall|i: int| 0 <= i < from.len() ==> 0 <= #[trigger] from[i] < from.len(),
        forall|i: int, j: int| 0 <= i < j < from.len() ==> from[i] != from[j],
        0 <= k < from.len(),
    ensures
        0 <= i < from.len(),
        from[i] == k,
{
    let places = vstd::set_lib::set_int_range(0, from.len() as int);
    assert(from.no_duplicates());
    from.unique_seq_to_set();
    vstd::set_lib::lemma_int_range(0, from.len() as int);
    assert(from.to_set().subset_of(places));
    vstd::set_lib::lemma_subset_equality(from.to_set(), places);
    assert(from.to_set().contains(k));
    choose|i: int| 0 <= i < from.len() && from[i] == k
}

/// No two elements of `s` are left undecided.
pub open spec fn decides_all<T>(s: Seq<T>, before: spec_fn(T, T) -> bool) -> bool {
    forall|i: int, j: int|
        0 <= i < s.len() && 0 <= j < s.len() && i != j ==> #[trigger] before(s[i], s[j]) || before(
            s[j],
            s[i],
        )
}

/// `places` lists the positions of the elements of `s`, each before the next.
spec fn runs_upward<T>(s: Seq<T>, places: Seq<int>, before: spec_fn(T, T) -> bool) -> bool {
    &&& places.len() == s.len()
    &&& forall|i: int| 0 <= i < places.len() ==> 0 <= #[trigger] places[i] < s.len()
    &&& forall|i: int, j: int| 0 <= i < j < places.len() ==> places[i] != places[j]
    &&& forall|i: int, j: int|
        #![trigger places[i], places[j]]
        0 <= i < j < places.len() ==> before(s[places[i]], s[places[j]])
}

proof fn lemma_one_way_upward<T>(
    s: Seq<T>,
    p: Seq<int>,
    q: Seq<int>,
    before: spec_fn(T, T) -> bool,
    i: int,
)
    requires
        is_strict_order_on(s, before),
        runs_upward(s, p, before),
        runs_upward(s, q, before),
        0 <= i < s.len(),
    ensures
        p[i] == q[i],
    decreases i,
{
    assert forall|k: int| 0 <= k < i implies p[k] == q[k] by {
        lemma_one_way_upward(s, p, q, before, k);
    }
    let m = lemma_every_place_is_taken(q, p[i]);
    let l = lemma_every_place_is_taken(p, q[i]);
    if p[i] != q[i] {
        assert(m > i) by {
            if m < i {
                assert(p[m] == q[m]);
            }
        }
        assert(l > i) by {
            if l < i {
                assert(p[l] == q[l]);
            }
        }
        assert(before(s[q[i]], s[q[m]]));
        assert(before(s[p[i]], s[p[l]]));
    }
}

/// Where the relation decides between all elements, it does not matter in which
/// order they come.
pub proof fn lemma_sorted_ignores_order<T>(
    s: Seq<T>,
    t: Seq<T>,
    from: Seq<int>,
    before: spec_fn(T, T) -> bool,
)
    requires
        is_rearrangement(s, t, from),
        is_strict_order_on(s, before),
        decides_all(s, before),
    ensures
        sorted(s, before) == sorted(t, before),
{
    assert(is_strict_order_on(t, before)) by {
        assert(forall|i: int| 0 <= i < t.len() ==> 0 <= #[trigger] from[i] < s.len() && t[i] == s[from[i]]);
        assert forall|i: int, j: int|
            0 <= i < t.len() && 0 <= j < t.len() && #[trigger] before(t[i], t[j]) implies !before(
            t[j],
            t[i],
        ) by {
            assert(before(s[from[i]], s[from[j]]));
        }
        assert forall|i: int, j: int, k: int|
            #![trigger before(t[i], t[k]), before(t[j], t[k])]
            0 <= i < t.len() && 0 <= j < t.len() && 0 <= k < t.len() && before(
                t[i],
                t[k],
            ) implies before(t[i], t[j]) || before(t[j], t[k]) by {
            assert(before(s[from[i]], s[from[k]]));
            assert(before(s[from[i]], s[from[j]]) || before(s[from[j]], s[from[k]]));
        }
    }
    let a = sorted(s, before);
    let b = sorted(t, before);
    let p = lemma_sorted_is_stable(s, before);
    let from_t = lemma_sorted_is_stable(t, before);
    let q = Seq::new(s.len(), |i: int| from[from_t[i]]);
    assert forall|i: int| 0 <= i < q.len() implies 0 <= #[trigger] q[i] < s.len() && b[i] == s[q[i]] by {
        assert(0 <= from_t[i] < t.len() && b[i] == t[from_t[i]]);
        assert(t[from_t[i]] == s[from[from_t[i]]]);
    }
    assert forall|i: int, j: int| 0 <= i < j < q.len() implies q[i] != q[j] by {
        assert(0 <= from_t[i] < t.len() && 0 <= from_t[j] < t.len());
        assert(from_t[i] != from_t[j]);
        if from_t[i] < from_t[j] {
            assert(from[from_t[i]] != from[from_t[j]]);
        } else {
            assert(from[from_t[j]] != from[from_t[i]]);
        }
    }
    assert(runs_upward(s, p, before)) by {
        assert forall|i: int, j: int|
            #![trigger p[i], p[j]]
            0 <= i < j < p.len() implies before(s[p[i]], s[p[j]]) by {
            assert(a[i] == s[p[i]] && a[j] == s[p[j]]);
            assert(before(s[p[i]], s[p[j]]) || before(s[p[j]], s[p[i]]));
        }
    }
    assert(runs_upward(s, q, before)) by {
        assert forall|i: int, j: int|
            #![trigger q[i], q[j]]
            0 <= i < j < q.len() implies before(s[q[i]], s[q[j]]) by {
            assert(b[i] == s[q[i]] && b[j] == s[q[j]]);
            assert(before(s[q[i]], s[q[j]]) || before(s[q[j]], s[q[i]]));
        }
    }
    assert forall|i: int| 0 <= i < a.len() implies a[i] == b[i] by {
        lemma_one_way_upward(s, p, q, before, i);
        assert(a[i] == s[p[i]] && b[i] == s[q[i]]);
    }
    assert(a =~= b);
}

/// Sorting treats elements that the relation cannot tell apart in the same way.
pub proof fn lemma_sorted_respects<T>(
    s: Seq<T>,
    t: Seq<T>,
    before: spec_fn(T, T) -> bool,
    like: spec_fn(T, T) -> bool,
)
    requires
        s.len() == t.len(),
        forall|i: int| 0 <= i < s.len() ==> like(#[trigger] s[i], t[i]),
        forall|a: T, b: T, c: T, d: T|
            #![trigger like(a, c), like(b, d)]
            like(a, c) && like(b, d) ==> before(a, b) == before(c, d),
    ensures
        sorted(s, before).len() == s.len(),
        sorted(t, before).len() == s.len(),
        forall|i: int|
            0 <= i < s.len() ==> like(#[trigger] sorted(s, before)[i], sorted(t, before)[i]),
    decreases s.len(),
{
    lemma_sorted_keeps(s, before);
    lemma_sorted_keeps(t, before);
    if s.len() > 0 {
        let last = s.len() - 1;
        let a = sorted(s.drop_last(), before);
        let b = sorted(t.drop_last(), before);
        lemma_sorted_respects(s.drop_last(), t.drop_last(), before, like);
        assert(like(s[last], t[last]));
        lemma_inserted(a, s[last], before);
        lemma_inserted(b, t[last], before);
        let p = insertion_point(a, s[last], before);
        assert(p > 0 ==> like(a[p - 1], b[p - 1]));
        assert forall|i: int| p <= i < b.len() implies before(t[last], b[i]) by {
            assert(like(a[i], b[i]));
            assert(before(s[last], a[i]));
        }
        lemma_insertion_point(b, t[last], before, p);
        assert forall|i: int| 0 <= i < s.len() implies like(
            #[trigger] sorted(s, before)[i],
            sorted(t, before)[i],
        ) by {
            let k = if i < p { i } else { i - 1 };
            if i != p {
                assert(like(a[k], b[k]));
            }
        }
    }
}

/// Sorts `items` by `before`, equals in the order in which they came.
pub fn sort<T, F: Fn(&T, &T) -> bool>(
    items: Vec<T>,
    precedes: F,
    Ghost(before): Ghost<spec_fn(T, T) -> bool>,
) -> (out: Vec<T>)
    requires
        forall|a: T, b: T| #![trigger precedes.requires((&a, &b))] precedes.requires((&a, &b)),
        forall|a: T, b: T, r: bool|
            #![trigger precedes.ensures((&a, &b), r)]
            precedes.ensures((&a, &b), r) ==> r == before(a, b),
    ensures
        out@ == sorted(items@, before),
{
    let mut items = items;
    let ghost all = items@;
    let mut out: Vec<T> = Vec::new();
    let mut taken: usize = 0;
    let n: usize = items.len();
    assert(all.skip(0) =~= all);
    while taken < n
        invariant
            taken <= n == all.len(),
            items@ == all.skip(taken as int),
            out@ == sorted(all.take(taken as int), before),
            out@.len() == taken,
            forall|a: T, b: T| #![trigger precedes.requires((&a, &b))] precedes.requires((&a, &b)),
            forall|a: T, b: T, r: bool|
                #![trigger precedes.ensures((&a, &b), r)]
                precedes.ensures((&a, &b), r) ==> r == before(a, b),
        decreases n - taken,
    {
        let x = items.remove(0);
        assert(x == all[taken as int]);
        assert(items@ =~= all.skip(taken + 1));
        let mut p: usize = out.len();
        while p > 0 && precedes(&x, &out[p - 1])
            invariant
                p <= out@.len(),
                forall|i: int| p <= i < out@.len() ==> before(x, out@[i]),
                forall|a: T, b: T|
                    #![trigger precedes.requires((&a, &b))]
                    precedes.requires((&a, &b)),
                forall|a: T, b: T, r: bool|
                    #![trigger precedes.ensures((&a, &b), r)]
                    precedes.ensures((&a, &b), r) ==> r == before(a, b),
            ensures
                p > 0 ==> !before(x, out@[p - 1]),
            decreases p,
        {
            p = p - 1;
        }
        proof {
            lemma_insertion_point(out@, x, before, p as int);
            lemma_inserted(out@, x, before);
            assert(all.take(taken + 1).drop_last() =~= all.take(taken as int));
        }
        out.insert(p, x);
        taken = taken + 1;
    }
    assert(all.take(n as int) =~= all);
    out
}

} // verus!
