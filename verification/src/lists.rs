//! Facts about filtered sequences, and filtering in place.

use vstd::prelude::*;

verus! {

/// What a list of viewable things holds.
pub open spec fn views<T: View>(v: Seq<T>) -> Seq<T::V> {
    v.map_values(|x: T| x@)
}

/// The elements of `s` that are flagged with `flag`.
pub open spec fn picked<A>(s: Seq<A>, flags: Seq<bool>, flag: bool) -> Seq<A>
    decreases s.len(),
{
    if s.len() == 0 || flags.len() != s.len() {
        Seq::empty()
    } else {
        let rest = picked(s.drop_last(), flags.drop_last(), flag);
        if flags.last() == flag {
            rest.push(s.last())
        } else {
            rest
        }
    }
}

/// Filtering a sequence with one more element.
pub proof fn lemma_filter_push<A>(s: Seq<A>, x: A, keep: spec_fn(A) -> bool)
    ensures
        s.push(x).filter(keep) == if keep(x) {
            s.filter(keep).push(x)
        } else {
            s.filter(keep)
        },
{
    reveal(Seq::filter);
    assert(s.push(x).drop_last() == s);
}

/// Filtering a sequence from its first element on.
pub proof fn lemma_filter_first<A>(s: Seq<A>, keep: spec_fn(A) -> bool)
    requires
        s.len() > 0,
    ensures
        s.filter(keep) == if keep(s[0]) {
            seq![s[0]] + s.skip(1).filter(keep)
        } else {
            s.skip(1).filter(keep)
        },
    decreases s.len(),
{
    reveal(Seq::filter);
    let t = s.drop_last();
    assert(s == t.push(s.last()));
    lemma_filter_push(t, s.last(), keep);
    if s.len() > 1 {
        lemma_filter_first(t, keep);
        assert(s.skip(1) == t.skip(1).push(s.last()));
        lemma_filter_push(t.skip(1), s.last(), keep);
        assert(s.filter(keep) =~= if keep(s[0]) {
            seq![s[0]] + s.skip(1).filter(keep)
        } else {
            s.skip(1).filter(keep)
        });
    } else {
        assert(t =~= Seq::empty());
        assert(s.skip(1) =~= Seq::empty());
        assert(s.filter(keep) =~= if keep(s[0]) {
            seq![s[0]] + s.skip(1).filter(keep)
        } else {
            s.skip(1).filter(keep)
        });
    }
}

/// Filtering does not lengthen, and keeps the length only when it drops nothing.
pub proof fn lemma_filter_len<A>(s: Seq<A>, keep: spec_fn(A) -> bool)
    ensures
        s.filter(keep).len() <= s.len(),
        s.filter(keep).len() == s.len() <==> (forall|i: int|
            0 <= i < s.len() ==> keep(#[trigger] s[i])),
        s.filter(keep).len() == s.len() ==> s.filter(keep) == s,
    decreases s.len(),
{
    reveal(Seq::filter);
    if s.len() > 0 {
        let t = s.drop_last();
        lemma_filter_len(t, keep);
        assert(s == t.push(s.last()));
        if keep(s.last()) && t.filter(keep).len() == t.len() {
            assert forall|i: int| 0 <= i < s.len() implies keep(#[trigger] s[i]) by {
                if i < t.len() {
                    assert(keep(t[i]));
                }
            }
        }
        if forall|i: int| 0 <= i < s.len() ==> keep(#[trigger] s[i]) {
            assert forall|i: int| 0 <= i < t.len() implies keep(#[trigger] t[i]) by {
                assert(keep(s[i]));
            }
            assert(keep(s[s.len() - 1]));
        }
    }
}

/// What is left after filtering was there before and is to be kept.
pub proof fn lemma_filter_member<A>(s: Seq<A>, keep: spec_fn(A) -> bool, i: int)
    requires
        0 <= i < s.filter(keep).len(),
    ensures
        keep(s.filter(keep)[i]),
        s.contains(s.filter(keep)[i]),
    decreases s.len(),
{
    reveal(Seq::filter);
    if s.len() > 0 {
        let t = s.drop_last();
        assert(s == t.push(s.last()));
        if i < t.filter(keep).len() {
            lemma_filter_member(t, keep, i);
            let j = choose|j: int| 0 <= j < t.len() && t[j] == t.filter(keep)[i];
            assert(s[j] == s.filter(keep)[i]);
        } else {
            assert(s[s.len() - 1] == s.filter(keep)[i]);
        }
    }
}

/// What was there and is to be kept is still there after filtering.
pub proof fn lemma_filter_keeps<A>(s: Seq<A>, keep: spec_fn(A) -> bool, i: int)
    requires
        0 <= i < s.len(),
        keep(s[i]),
    ensures
        s.filter(keep).contains(s[i]),
    decreases s.len(),
{
    reveal(Seq::filter);
    let t = s.drop_last();
    assert(s == t.push(s.last()));
    if i < t.len() {
        lemma_filter_keeps(t, keep, i);
        let j = choose|j: int| 0 <= j < t.filter(keep).len() && t.filter(keep)[j] == t[i];
        assert(s.filter(keep)[j] == s[i]);
    } else {
        assert(s.filter(keep).last() == s[i]);
    }
}

/// Filters that agree on a sequence's elements leave the same sequence.
pub proof fn lemma_filter_agree<A>(s: Seq<A>, f: spec_fn(A) -> bool, g: spec_fn(A) -> bool)
    requires
        forall|i: int| 0 <= i < s.len() ==> f(#[trigger] s[i]) == g(s[i]),
    ensures
        s.filter(f) == s.filter(g),
    decreases s.len(),
{
    reveal(Seq::filter);
    if s.len() > 0 {
        let t = s.drop_last();
        assert forall|i: int| 0 <= i < t.len() implies f(#[trigger] t[i]) == g(t[i]) by {
            assert(f(s[i]) == g(s[i]));
        }
        lemma_filter_agree(t, f, g);
        assert(f(s[s.len() - 1]) == g(s[s.len() - 1]));
    }
}

/// Filtering after filtering.
pub proof fn lemma_filter_filter<A>(s: Seq<A>, f: spec_fn(A) -> bool, g: spec_fn(A) -> bool)
    ensures
        s.filter(f).filter(g) == s.filter(|a: A| f(a) && g(a)),
    decreases s.len(),
{
    reveal(Seq::filter);
    if s.len() > 0 {
        let t = s.drop_last();
        lemma_filter_filter(t, f, g);
        if f(s.last()) {
            lemma_filter_push(t.filter(f), s.last(), g);
        }
    }
}

/// Keeps the elements of `v` that `keep` accepts, in their order.
pub fn retain<T: View, F: Fn(&T) -> bool>(
    v: &mut Vec<T>,
    keep: F,
    Ghost(pred): Ghost<spec_fn(T::V) -> bool>,
)
    requires
        forall|x: &T| #[trigger] call_requires(keep, (x,)),
        forall|x: &T, b: bool| #[trigger] call_ensures(keep, (x,), b) ==> b == pred(x@),
    ensures
        views(final(v)@) == views(old(v)@).filter(pred),
{
    let ghost orig = v@;
    let ghost mut seen: int = 0;
    let mut i: usize = 0;
    proof {
        assert(views(v@.take(0)) =~= views(orig.take(0)).filter(pred)) by {
            reveal(Seq::filter);
        }
    }
    while i < v.len()
        invariant
            i <= v.len(),
            0 <= seen <= orig.len(),
            v@.skip(i as int) == orig.skip(seen),
            views(v@.take(i as int)) == views(orig.take(seen)).filter(pred),
            forall|x: &T| #[trigger] call_requires(keep, (x,)),
            forall|x: &T, b: bool| #[trigger] call_ensures(keep, (x,), b) ==> b == pred(x@),
        decreases v.len() - i,
    {
        let ghost here = v@;
        proof {
            assert(v@.skip(i as int).len() == orig.skip(seen).len());
            assert(v@.skip(i as int)[0] == orig.skip(seen)[0]);
            assert(v@[i as int] == orig[seen]);
            assert(views(orig.take(seen + 1)) =~= views(orig.take(seen)).push(orig[seen]@));
            lemma_filter_push(views(orig.take(seen)), orig[seen]@, pred);
            assert(orig.skip(seen).skip(1) == orig.skip(seen + 1));
            assert(here.skip(i as int).skip(1) == here.skip(i + 1));
        }
        let wanted = keep(&v[i]);
        if wanted {
            i += 1;
            proof {
                assert(views(v@.take(i as int)) =~= views(here.take(i - 1)).push(here[i - 1]@));
            }
        } else {
            v.remove(i);
            proof {
                assert(v@.take(i as int) =~= here.take(i as int));
                assert(v@.skip(i as int) =~= here.skip(i + 1));
            }
        }
        proof {
            seen = seen + 1;
        }
    }
    proof {
        assert(v@.skip(i as int).len() == orig.skip(seen).len());
        assert(seen == orig.len());
        assert(v@.take(i as int) == v@);
        assert(orig.take(seen) == orig);
    }
}

/// Whether `n` is one of `ns`.
pub fn has_number(ns: &Vec<u32>, n: u32) -> (r: bool)
    ensures
        r == ns@.contains(n),
{
    let mut i: usize = 0;
    while i < ns.len()
        invariant
            i <= ns.len(),
            forall|j: int| 0 <= j < i ==> ns@[j] != n,
        decreases ns.len() - i,
    {
        if ns[i] == n {
            return true;
        }
        i += 1;
    }
    false
}

} // verus!
