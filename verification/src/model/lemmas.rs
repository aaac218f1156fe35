//! Facts about filtered and reversed sequences that the queries rest on.

use vstd::prelude::*;

verus! {

/// Filters that agree on every element of `s` keep the same elements.
pub proof fn lemma_filter_agree<A>(s: Seq<A>, p: spec_fn(A) -> bool, q: spec_fn(A) -> bool)
    requires
        forall|i: int| 0 <= i < s.len() ==> p(#[trigger] s[i]) == q(s[i]),
    ensures
        s.filter(p) == s.filter(q),
    decreases s.len(),
{
    reveal(Seq::filter);
    if s.len() > 0 {
        lemma_filter_agree(s.drop_last(), p, q);
    }
}

/// A filter that every element of `s` passes keeps `s` as it is.
pub proof fn lemma_filter_all<A>(s: Seq<A>, p: spec_fn(A) -> bool)
    requires
        forall|i: int| 0 <= i < s.len() ==> p(#[trigger] s[i]),
    ensures
        s.filter(p) == s,
    decreases s.len(),
{
    reveal(Seq::filter);
    if s.len() > 0 {
        lemma_filter_all(s.drop_last(), p);
        assert(s.drop_last().push(s.last()) =~= s);
    }
}

/// A filter that no element of `s` passes keeps nothing.
pub proof fn lemma_filter_none<A>(s: Seq<A>, p: spec_fn(A) -> bool)
    requires
        forall|i: int| 0 <= i < s.len() ==> !p(#[trigger] s[i]),
    ensures
        s.filter(p) == Seq::<A>::empty(),
    decreases s.len(),
{
    reveal(Seq::filter);
    if s.len() > 0 {
        lemma_filter_none(s.drop_last(), p);
    } else {
        assert(s =~= Seq::<A>::empty());
    }
}

/// Filtering by `p` and then by `q` is filtering by both at once.
pub proof fn lemma_filter_twice<A>(
    s: Seq<A>,
    p: spec_fn(A) -> bool,
    q: spec_fn(A) -> bool,
    both: spec_fn(A) -> bool,
)
    requires
        forall|i: int| 0 <= i < s.len() ==> both(#[trigger] s[i]) == (p(s[i]) && q(s[i])),
    ensures
        s.filter(p).filter(q) == s.filter(both),
    decreases s.len(),
{
    reveal(Seq::filter);
    if s.len() > 0 {
        let rest = s.drop_last();
        lemma_filter_twice(rest, p, q, both);
        if p(s.last()) {
            let kept = rest.filter(p);
            assert(kept.push(s.last()).drop_last() =~= kept);
        }
    }
}

/// The elements that a filter keeps stand in the order they had, each at
/// or behind the place where the filter found it.
pub proof fn lemma_filter_positions<A>(s: Seq<A>, p: spec_fn(A) -> bool) -> (at: Seq<int>)
    ensures
        at.len() == s.filter(p).len(),
        forall|k: int| 0 <= k < at.len() ==> 0 <= #[trigger] at[k] < s.len(),
        forall|k: int| 0 <= k < at.len() ==> s.filter(p)[k] == s[#[trigger] at[k]],
        forall|k: int| 0 <= k < at.len() ==> p(s[#[trigger] at[k]]),
        forall|k: int, l: int| 0 <= k < l < at.len() ==> #[trigger] at[k] < #[trigger] at[l],
        forall|i: int| 0 <= i < s.len() && p(s[i]) ==> at.contains(i),
    decreases s.len(),
{
    reveal(Seq::filter);
    if s.len() == 0 {
        Seq::empty()
    } else {
        let rest = s.drop_last();
        let inner = lemma_filter_positions(rest, p);
        let last = s.len() - 1;
        assert forall|k: int| 0 <= k < inner.len() implies rest[#[trigger] inner[k]]
            == s[inner[k]] by {}
        if p(s.last()) {
            let at = inner.push(last);
            assert(s.filter(p) == rest.filter(p).push(s.last()));
            assert forall|k: int| 0 <= k < at.len() implies s.filter(p)[k]
                == s[#[trigger] at[k]] by {
                if k < inner.len() {
                    assert(rest.filter(p)[k] == rest[inner[k]]);
                }
            }
            assert forall|i: int| 0 <= i < s.len() && p(s[i]) implies at.contains(i) by {
                if i < last {
                    assert(rest[i] == s[i]);
                    assert(inner.contains(i));
                    let k = choose|k: int| 0 <= k < inner.len() && inner[k] == i;
                    assert(at[k] == i);
                } else {
                    assert(at[inner.len() as int] == i);
                }
            }
            at
        } else {
            assert(s.filter(p) == rest.filter(p));
            assert forall|k: int| 0 <= k < inner.len() implies s.filter(p)[k]
                == s[#[trigger] inner[k]] by {
                assert(rest.filter(p)[k] == rest[inner[k]]);
            }
            assert forall|i: int| 0 <= i < s.len() && p(s[i]) implies inner.contains(i) by {
                if i < last {
                    assert(rest[i] == s[i]);
                }
            }
            inner
        }
    }
}

} // verus!
