//! Lists: keeping, finding and counting elements by a predicate.

use vstd::prelude::*;

verus! {

/// Where the first element that satisfies `p` stands.
pub open spec fn first_where<T>(s: Seq<T>, p: spec_fn(T) -> bool) -> Option<int>
    decreases s.len(),
{
    if s.len() == 0 {
        None
    } else if p(s[0]) {
        Some(0)
    } else {
        match first_where(s.drop_first(), p) {
            Some(i) => Some(i + 1),
            None => None,
        }
    }
}

/// The first element that satisfies `p`.
pub open spec fn first_of<T>(s: Seq<T>, p: spec_fn(T) -> bool) -> Option<T> {
    match first_where(s, p) {
        Some(i) => Some(s[i]),
        None => None,
    }
}

pub(crate) proof fn lemma_first_where<T>(s: Seq<T>, p: spec_fn(T) -> bool)
    ensures
        match first_where(s, p) {
            Some(i) => 0 <= i < s.len() && p(s[i]) && forall|k: int| 0 <= k < i ==> !p(s[k]),
            None => forall|k: int| 0 <= k < s.len() ==> !p(s[k]),
        },
    decreases s.len(),
{
    if s.len() > 0 && !p(s[0]) {
        let t = s.drop_first();
        lemma_first_where(t, p);
        match first_where(t, p) {
            Some(i) => {
                assert forall|k: int| 0 <= k < i + 1 implies !p(s[k]) by {
                    if k > 0 {
                        assert(t[k - 1] == s[k]);
                    }
                }
            },
            None => {
                assert forall|k: int| 0 <= k < s.len() implies !p(s[k]) by {
                    if k > 0 {
                        assert(t[k - 1] == s[k]);
                    }
                }
            },
        }
    }
}

pub(crate) proof fn lemma_first_where_is<T>(s: Seq<T>, p: spec_fn(T) -> bool, i: int)
    requires
        0 <= i < s.len(),
        p(s[i]),
        forall|k: int| 0 <= k < i ==> !p(s[k]),
    ensures
        first_where(s, p) == Some(i),
{
    lemma_first_where(s, p);
}

pub(crate) proof fn lemma_first_where_none<T>(s: Seq<T>, p: spec_fn(T) -> bool)
    requires
        forall|k: int| 0 <= k < s.len() ==> !p(s[k]),
    ensures
        first_where(s, p) is None,
{
    lemma_first_where(s, p);
}

/// Where the `i`-th element that satisfies `p` stands.
pub open spec fn place_of<T>(s: Seq<T>, p: spec_fn(T) -> bool, i: int) -> int
    decreases s.len(),
{
    if s.len() == 0 {
        0
    } else if p(s.last()) && i == s.drop_last().filter(p).len() {
        s.len() - 1
    } else {
        place_of(s.drop_last(), p, i)
    }
}

/// A filtered list has the elements that satisfy `p`, in their order.
pub(crate) proof fn lemma_filter_places<T>(s: Seq<T>, p: spec_fn(T) -> bool)
    ensures
        s.filter(p).len() <= s.len(),
        forall|i: int|
            0 <= i < s.filter(p).len() ==> 0 <= #[trigger] place_of(s, p, i) && place_of(s, p, i)
                < s.len() && s.filter(p)[i] == s[place_of(s, p, i)] && p(s.filter(p)[i]),
        forall|i: int, j: int|
            0 <= i < j < s.filter(p).len() ==> #[trigger] place_of(s, p, i) < #[trigger] place_of(
                s,
                p,
                j,
            ),
    decreases s.len(),
{
    reveal(Seq::filter);
    if s.len() > 0 {
        let t = s.drop_last();
        let n = t.filter(p).len() as int;
        lemma_filter_places(t, p);
        assert forall|i: int| 0 <= i < s.filter(p).len() implies 0 <= #[trigger] place_of(s, p, i)
            && place_of(s, p, i) < s.len() && s.filter(p)[i] == s[place_of(s, p, i)] && p(
            s.filter(p)[i],
        ) && (i < n ==> place_of(s, p, i) == place_of(t, p, i)) by {
            if i < n {
                assert(0 <= place_of(t, p, i) < t.len());
            }
        }
        assert forall|i: int, j: int| 0 <= i < j < s.filter(p).len() implies #[trigger] place_of(
            s,
            p,
            i,
        ) < #[trigger] place_of(s, p, j) by {
            assert(0 <= place_of(t, p, i) < t.len());
        }
    }
}

/// Nothing goes where all satisfy `p`.
pub(crate) proof fn lemma_filter_all<T>(s: Seq<T>, p: spec_fn(T) -> bool)
    requires
        forall|i: int| 0 <= i < s.len() ==> p(#[trigger] s[i]),
    ensures
        s.filter(p) == s,
    decreases s.len(),
{
    reveal(Seq::filter);
    if s.len() > 0 {
        lemma_filter_all(s.drop_last(), p);
        assert(p(s[s.len() - 1]));
        assert(s.filter(p) =~= s);
    }
}

/// Keep the elements that satisfy `p`, in their order.
pub(crate) fn keep<T, F: Fn(&T) -> bool>(v: &mut Vec<T>, f: F, Ghost(p): Ghost<spec_fn(T) -> bool>)
    requires
        forall|x: &T| call_requires(f, (x,)),
        forall|x: &T, b: bool| call_ensures(f, (x,), b) ==> b == p(*x),
    ensures
        final(v)@ == old(v)@.filter(p),
{
    let ghost orig = v@;
    let ghost mut k: int = 0;
    let mut i: usize = 0;
    proof {
        assert(orig.take(0).filter(p) =~= seq![]) by {
            orig.take(0).lemma_filter_len(p);
        }
        assert(v@ =~= orig.take(0).filter(p) + orig.skip(0));
    }
    while i < v.len()
        invariant
            forall|x: &T| call_requires(f, (x,)),
            forall|x: &T, b: bool| call_ensures(f, (x,), b) ==> b == p(*x),
            0 <= k <= orig.len(),
            v@ == orig.take(k).filter(p) + orig.skip(k),
            i == orig.take(k).filter(p).len(),
        decreases v.len() - i,
    {
        proof {
            assert(orig.take(k + 1) =~= orig.take(k).push(orig[k]));
            orig.take(k).lemma_filter_push(orig[k], p);
            assert(v@[i as int] == orig[k]);
            assert(orig.skip(k) =~= seq![orig[k]] + orig.skip(k + 1));
        }
        if f(&v[i]) {
            i = i + 1;
            assert(v@ =~= orig.take(k + 1).filter(p) + orig.skip(k + 1));
        } else {
            v.remove(i);
            assert(v@ =~= orig.take(k + 1).filter(p) + orig.skip(k + 1));
        }
        proof {
            k = k + 1;
        }
    }
    proof {
        assert(orig.skip(k).len() == 0);
        assert(orig.take(k) =~= orig);
        assert(v@ =~= orig.filter(p));
    }
}

/// Where the first element that satisfies `p` stands.
pub(crate) fn position<T, F: Fn(&T) -> bool>(
    v: &[T],
    f: F,
    Ghost(p): Ghost<spec_fn(T) -> bool>,
) -> (r: Option<usize>)
    requires
        forall|x: &T| call_requires(f, (x,)),
        forall|x: &T, b: bool| call_ensures(f, (x,), b) ==> b == p(*x),
    ensures
        match r {
            Some(i) => i < v.len() && p(v[i as int]) && first_where(v@, p) == Some(i as int) && (
            forall|k: int| 0 <= k < i ==> !p(v[k])),
            None => first_where(v@, p) is None && forall|k: int| 0 <= k < v.len() ==> !p(v[k]),
        },
{
    let mut i: usize = 0;
    while i < v.len()
        invariant
            forall|x: &T| call_requires(f, (x,)),
            forall|x: &T, b: bool| call_ensures(f, (x,), b) ==> b == p(*x),
            i <= v.len(),
            forall|k: int| 0 <= k < i ==> !p(v[k]),
        decreases v.len() - i,
    {
        if f(&v[i]) {
            proof {
                lemma_first_where_is(v@, p, i as int);
            }
            return Some(i);
        }
        i = i + 1;
    }
    proof {
        lemma_first_where_none(v@, p);
    }
    None
}

} // verus!
