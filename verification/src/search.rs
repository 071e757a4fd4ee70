//! Finding the first element of a sequence that has some property.

use vstd::prelude::*;

verus! {

/// The first place in `s` whose element satisfies `p`, if there is one.
pub open spec fn first_where<T>(s: Seq<T>, p: spec_fn(T) -> bool) -> Option<int>
    decreases s.len(),
{
    if s.len() == 0 {
        None
    } else if p(s[0]) {
        Some(0)
    } else {
        match first_where(s.drop_first(), p) {
            Some(i) => Some(i + 1),
            None => None,
        }
    }
}

/// What `first_where` finds: a place that satisfies `p` with none before it
/// that does, or nothing where no place does.
pub proof fn lemma_first_where<T>(s: Seq<T>, p: spec_fn(T) -> bool)
    ensures
        match first_where(s, p) {
            Some(i) => 0 <= i < s.len() && p(s[i]) && forall|j: int| 0 <= j < i ==> !p(#[trigger] s[j]),
            None => forall|j: int| 0 <= j < s.len() ==> !p(#[trigger] s[j]),
        },
    decreases s.len(),
{
    if s.len() > 0 && !p(s[0]) {
        let rest = s.drop_first();
        lemma_first_where(rest, p);
        match first_where(rest, p) {
            Some(i) => {
                assert forall|j: int| 0 <= j < i + 1 implies !p(#[trigger] s[j]) by {
                    if j > 0 {
                        assert(!p(rest[j - 1]));
                    }
                }
            },
            None => {
                assert forall|j: int| 0 <= j < s.len() implies !p(#[trigger] s[j]) by {
                    if j > 0 {
                        assert(!p(rest[j - 1]));
                    }
                }
            },
        }
    }
}

/// The elements of `s` that satisfy `p`, each turned into `f` of it, in the
/// order of `s`.
pub open spec fn selected<T, U>(s: Seq<T>, p: spec_fn(T) -> bool, f: spec_fn(T) -> U) -> Seq<U> {
    s.filter(p).map_values(f)
}

/// One more element adds `f` of it to the selection if it satisfies `p`, and
/// nothing if it does not.
pub proof fn lemma_selected_step<T, U>(
    s: Seq<T>,
    p: spec_fn(T) -> bool,
    f: spec_fn(T) -> U,
    i: int,
)
    requires
        0 <= i < s.len(),
    ensures
        selected(s.take(i + 1), p, f) == if p(s[i]) {
            selected(s.take(i), p, f).push(f(s[i]))
        } else {
            selected(s.take(i), p, f)
        },
{
    let head = s.take(i);
    let upto = s.take(i + 1);
    assert(upto.drop_last() =~= head);
    assert(upto.last() == s[i]);
    reveal(Seq::filter);
    if p(s[i]) {
        assert(upto.filter(p) == head.filter(p).push(s[i]));
        assert(head.filter(p).push(s[i]).map_values(f) =~= head.filter(p).map_values(f).push(f(s[i])));
    } else {
        assert(upto.filter(p) == head.filter(p));
    }
}

/// Nothing is selected from nothing.
pub proof fn lemma_selected_none<T, U>(s: Seq<T>, p: spec_fn(T) -> bool, f: spec_fn(T) -> U)
    ensures
        selected(s.take(0), p, f) == Seq::<U>::empty(),
{
    reveal(Seq::filter);
    assert(s.take(0) =~= Seq::<T>::empty());
    assert(Seq::<T>::empty().filter(p).map_values(f) =~= Seq::<U>::empty());
}

/// Filtering a sequence with one more element: the element is kept if it
/// satisfies `p`.
pub proof fn lemma_filter_push<T>(s: Seq<T>, x: T, p: spec_fn(T) -> bool)
    ensures
        s.push(x).filter(p) == if p(x) {
            s.filter(p).push(x)
        } else {
            s.filter(p)
        },
{
    reveal(Seq::filter);
    assert(s.push(x).drop_last() =~= s);
}

/// A sequence whose elements all satisfy `p` is its own filter by `p`.
pub proof fn lemma_filter_all<T>(s: Seq<T>, p: spec_fn(T) -> bool)
    requires
        forall|i: int| 0 <= i < s.len() ==> p(#[trigger] s[i]),
    ensures
        s.filter(p) == s,
    decreases s.len(),
{
    reveal(Seq::filter);
    if s.len() > 0 {
        let t = s.drop_last();
        assert forall|i: int| 0 <= i < t.len() implies p(#[trigger] t[i]) by {
            assert(t[i] == s[i]);
        }
        lemma_filter_all(t, p);
        assert(t.push(s.last()) =~= s);
    } else {
        assert(s.filter(p) =~= s);
    }
}

/// Filtering by two properties gives the same in either order.
pub proof fn lemma_filter_commutes<T>(s: Seq<T>, p: spec_fn(T) -> bool, q: spec_fn(T) -> bool)
    ensures
        s.filter(p).filter(q) == s.filter(q).filter(p),
    decreases s.len(),
{
    reveal(Seq::filter);
    if s.len() > 0 {
        let t = s.drop_last();
        let x = s.last();
        lemma_filter_commutes(t, p, q);
        assert(t.push(x) =~= s);
        lemma_filter_push(t, x, p);
        lemma_filter_push(t, x, q);
        lemma_filter_push(t.filter(p), x, q);
        lemma_filter_push(t.filter(q), x, p);
    }
}

/// What is left by a filter satisfies the property.
pub proof fn lemma_filter_holds<T>(s: Seq<T>, p: spec_fn(T) -> bool)
    ensures
        forall|i: int| 0 <= i < s.filter(p).len() ==> p(#[trigger] s.filter(p)[i]),
    decreases s.len(),
{
    reveal(Seq::filter);
    if s.len() > 0 {
        lemma_filter_holds(s.drop_last(), p);
    }
}

/// Filtering twice by one property gives the same as filtering once.
pub proof fn lemma_filter_twice<T>(s: Seq<T>, p: spec_fn(T) -> bool)
    ensures
        s.filter(p).filter(p) == s.filter(p),
{
    lemma_filter_holds(s, p);
    lemma_filter_all(s.filter(p), p);
}

} // verus!
