//! Searching and pruning of record sequences: first and last match of a
//! predicate, and what `filter` does when the matches are known.
use vstd::prelude::*;

verus! {

/// Index of the first element of `s` satisfying `p`, if any.
pub open spec fn first_where<T>(s: Seq<T>, p: spec_fn(T) -> bool) -> Option<int>
    decreases s.len(),
{
    if s.len() == 0 {
        None
    } else if p(s[0]) {
        Some(0)
    } else {
        match first_where(s.drop_first(), p) {
            Some(i) => Some(i + 1),
            None => None,
        }
    }
}

/// `s` with `v` written at `at` when a row was found, else appended.
pub open spec fn upserted<T>(s: Seq<T>, at: Option<int>, v: T) -> Seq<T> {
    match at {
        Some(i) => s.update(i, v),
        None => s.push(v),
    }
}

/// Index of the last element of `s` satisfying `p`, if any.
pub open spec fn last_where<T>(s: Seq<T>, p: spec_fn(T) -> bool) -> Option<int>
    decreases s.len(),
{
    if s.len() == 0 {
        None
    } else if p(s[s.len() - 1]) {
        Some(s.len() - 1)
    } else {
        last_where(s.drop_last(), p)
    }
}

/// What `first_where` returns: a match with none before it, or no match at
/// all.
pub proof fn lemma_first_where<T>(s: Seq<T>, p: spec_fn(T) -> bool)
    ensures
        match first_where(s, p) {
            Some(i) => 0 <= i < s.len() && p(s[i]) && forall|j: int| 0 <= j < i ==> !p(s[j]),
            None => forall|j: int| 0 <= j < s.len() ==> !p(s[j]),
        },
    decreases s.len(),
{
    if s.len() > 0 && !p(s[0]) {
        let s1 = s.drop_first();
        lemma_first_where(s1, p);
        match first_where(s1, p) {
            Some(i) => {
                assert(s1[i] == s[i + 1]);
                assert forall|j: int| 0 <= j < i + 1 implies !p(s[j]) by {
                    if j > 0 {
                        assert(s1[j - 1] == s[j]);
                    }
                }
            },
            None => {
                assert forall|j: int| 0 <= j < s.len() implies !p(s[j]) by {
                    if j > 0 {
                        assert(s1[j - 1] == s[j]);
                    }
                }
            },
        }
    }
}

/// A match at `i` with none before it is the first match.
pub proof fn lemma_first_where_is<T>(s: Seq<T>, p: spec_fn(T) -> bool, i: int)
    requires
        0 <= i < s.len(),
        p(s[i]),
        forall|j: int| 0 <= j < i ==> !p(s[j]),
    ensures
        first_where(s, p) == Some(i),
    decreases s.len(),
{
    if i > 0 {
        lemma_first_where_is(s.drop_first(), p, i - 1);
    }
}

/// With no match anywhere, `first_where` finds none.
pub proof fn lemma_first_where_none<T>(s: Seq<T>, p: spec_fn(T) -> bool)
    requires
        forall|j: int| 0 <= j < s.len() ==> !p(s[j]),
    ensures
        first_where(s, p) == None::<int>,
{
    lemma_first_where(s, p);
    if first_where(s, p) is Some {
        assert(false);
    }
}

/// What `last_where` returns: a match with none after it, or no match at
/// all.
pub proof fn lemma_last_where<T>(s: Seq<T>, p: spec_fn(T) -> bool)
    ensures
        match last_where(s, p) {
            Some(i) => 0 <= i < s.len() && p(s[i]) && forall|j: int| i < j < s.len() ==> !p(s[j]),
            None => forall|j: int| 0 <= j < s.len() ==> !p(s[j]),
        },
    decreases s.len(),
{
    if s.len() > 0 && !p(s[s.len() - 1]) {
        let s1 = s.drop_last();
        lemma_last_where(s1, p);
        match last_where(s1, p) {
            Some(i) => {
                assert(s1[i] == s[i]);
                assert forall|j: int| i < j < s.len() implies !p(s[j]) by {
                    if j < s.len() - 1 {
                        assert(s1[j] == s[j]);
                    }
                }
            },
            None => {
                assert forall|j: int| 0 <= j < s.len() implies !p(s[j]) by {
                    if j < s.len() - 1 {
                        assert(s1[j] == s[j]);
                    }
                }
            },
        }
    }
}

/// A match at `i` with none after it is the last match.
pub proof fn lemma_last_where_is<T>(s: Seq<T>, p: spec_fn(T) -> bool, i: int)
    requires
        0 <= i < s.len(),
        p(s[i]),
        forall|j: int| i < j < s.len() ==> !p(s[j]),
    ensures
        last_where(s, p) == Some(i),
    decreases s.len(),
{
    if i < s.len() - 1 {
        lemma_last_where_is(s.drop_last(), p, i);
    }
}

/// With no match anywhere, `last_where` finds none.
pub proof fn lemma_last_where_none<T>(s: Seq<T>, p: spec_fn(T) -> bool)
    requires
        forall|j: int| 0 <= j < s.len() ==> !p(s[j]),
    ensures
        last_where(s, p) == None::<int>,
{
    lemma_last_where(s, p);
    if last_where(s, p) is Some {
        assert(false);
    }
}

/// A filter that keeps every element changes nothing.
pub proof fn lemma_filter_all<T>(s: Seq<T>, p: spec_fn(T) -> bool)
    requires
        forall|j: int| 0 <= j < s.len() ==> p(s[j]),
    ensures
        s.filter(p) == s,
    decreases s.len(),
{
    reveal(Seq::filter);
    if s.len() > 0 {
        lemma_filter_all(s.drop_last(), p);
        assert(s.filter(p) =~= s);
    }
}

/// A filter whose single casualty is the element at `i` acts as `remove`.
pub proof fn lemma_filter_all_but_one<T>(s: Seq<T>, p: spec_fn(T) -> bool, i: int)
    requires
        0 <= i < s.len(),
        !p(s[i]),
        forall|j: int| 0 <= j < s.len() && j != i ==> p(s[j]),
    ensures
        s.filter(p) == s.remove(i),
    decreases s.len(),
{
    reveal(Seq::filter);
    if i == s.len() - 1 {
        lemma_filter_all(s.drop_last(), p);
        assert(s.filter(p) =~= s.remove(i));
    } else {
        lemma_filter_all_but_one(s.drop_last(), p, i);
        assert(s.remove(i) =~= s.drop_last().remove(i).push(s[s.len() - 1]));
        assert(s.filter(p) =~= s.remove(i));
    }
}


/// Filters by predicates that agree on every element are the same filter.
pub proof fn lemma_filter_congruent<T>(s: Seq<T>, p: spec_fn(T) -> bool, q: spec_fn(T) -> bool)
    requires
        forall|i: int| 0 <= i < s.len() ==> (p(s[i]) <==> q(s[i])),
    ensures
        s.filter(p) == s.filter(q),
    decreases s.len(),
{
    reveal(Seq::filter);
    if s.len() > 0 {
        lemma_filter_congruent(s.drop_last(), p, q);
    }
}


/// Sequences on which a predicate agrees pointwise have the same first
/// match position.
pub proof fn lemma_first_where_agree<T>(s1: Seq<T>, s2: Seq<T>, p: spec_fn(T) -> bool)
    requires
        s1.len() == s2.len(),
        forall|i: int| 0 <= i < s1.len() ==> (p(s1[i]) <==> p(s2[i])),
    ensures
        first_where(s1, p) == first_where(s2, p),
    decreases s1.len(),
{
    if s1.len() > 0 && !p(s1[0]) {
        assert forall|i: int|
            0 <= i < s1.drop_first().len() implies (p(s1.drop_first()[i]) <==> p(
            s2.drop_first()[i])) by {
            assert(s1.drop_first()[i] == s1[i + 1]);
            assert(s2.drop_first()[i] == s2[i + 1]);
        }
        lemma_first_where_agree(s1.drop_first(), s2.drop_first(), p);
    }
}

} // verus!
