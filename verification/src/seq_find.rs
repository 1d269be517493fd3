//! First-match search over sequences, and the row-set updates built on it.
//!
//! Every table of the store is a sequence of rows with a unique key.  The
//! operations below describe, at the specification level, what an upsert or a
//! keyed delete does to such a sequence; the executable table code proves its
//! loops against them.

use vstd::prelude::*;

verus! {

/// Index of the first element of `s` satisfying `p`, or -1 if none does.
pub open spec fn first_where<T>(s: Seq<T>, p: spec_fn(T) -> bool) -> int
    decreases s.len(),
{
    if s.len() == 0 {
        -1
    } else if p(s[0]) {
        0
    } else if first_where(s.drop_first(), p) < 0 {
        -1
    } else {
        first_where(s.drop_first(), p) + 1
    }
}

/// Whether some element of `s` satisfies `p`.
pub open spec fn has_where<T>(s: Seq<T>, p: spec_fn(T) -> bool) -> bool {
    exists|i: int| 0 <= i < s.len() && p(s[i])
}

/// Replace the first element satisfying `p` by `v`, or append `v` if none does.
pub open spec fn upsert_where<T>(s: Seq<T>, p: spec_fn(T) -> bool, v: T) -> Seq<T> {
    if first_where(s, p) >= 0 {
        s.update(first_where(s, p), v)
    } else {
        s.push(v)
    }
}

/// The complement of a predicate.
pub open spec fn not_of<T>(p: spec_fn(T) -> bool) -> spec_fn(T) -> bool {
    |x: T| !p(x)
}

/// Remove every element satisfying `p`, keeping the order of the rest.
pub open spec fn remove_where<T>(s: Seq<T>, p: spec_fn(T) -> bool) -> Seq<T> {
    s.filter(not_of(p))
}

/// What `first_where` returns: the bounds, the match, and that nothing
/// earlier matches.
pub proof fn lemma_first_where<T>(s: Seq<T>, p: spec_fn(T) -> bool)
    ensures
        first_where(s, p) == -1 || 0 <= first_where(s, p) < s.len(),
        first_where(s, p) >= 0 ==> p(s[first_where(s, p)]),
        forall|i: int|
            0 <= i < s.len() && (first_where(s, p) == -1 || i < first_where(s, p)) ==> !p(s[i]),
    decreases s.len(),
{
    if s.len() > 0 && !p(s[0]) {
        lemma_first_where(s.drop_first(), p);
        assert forall|i: int|
            0 <= i < s.len() && (first_where(s, p) == -1 || i < first_where(s, p)) implies !p(
            s[i],
        ) by {
            if i > 0 {
                assert(s.drop_first()[i - 1] == s[i]);
            }
        }
    }
}

/// `first_where` returns `j` when `j` matches and nothing before it does.
pub proof fn lemma_first_where_is<T>(s: Seq<T>, p: spec_fn(T) -> bool, j: int)
    requires
        0 <= j < s.len(),
        p(s[j]),
        forall|i: int| 0 <= i < j ==> !p(s[i]),
    ensures
        first_where(s, p) == j,
{
    lemma_first_where(s, p);
}

/// `first_where` returns -1 when nothing matches.
pub proof fn lemma_first_where_none<T>(s: Seq<T>, p: spec_fn(T) -> bool)
    requires
        forall|i: int| 0 <= i < s.len() ==> !p(s[i]),
    ensures
        first_where(s, p) == -1,
{
    lemma_first_where(s, p);
}

/// Extending a prefix by one element extends its filtered image by that
/// element exactly when the element passes the filter.
pub proof fn lemma_filter_take_step<T>(s: Seq<T>, p: spec_fn(T) -> bool, i: int)
    requires
        0 <= i < s.len(),
    ensures
        s.take(i + 1).filter(p) == if p(s[i]) {
            s.take(i).filter(p).push(s[i])
        } else {
            s.take(i).filter(p)
        },
{
    reveal(Seq::filter);
    assert(s.take(i + 1).drop_last() =~= s.take(i));
    assert(s.take(i + 1).last() == s[i]);
}

/// Taking the whole length of a sequence is the sequence itself.
pub proof fn lemma_take_all<T>(s: Seq<T>)
    ensures
        s.take(s.len() as int) == s,
{
    assert(s.take(s.len() as int) =~= s);
}


/// After an upsert, the first match of the key is exactly the new element.
pub proof fn lemma_upsert_found<T>(s: Seq<T>, p: spec_fn(T) -> bool, v: T)
    requires
        p(v),
    ensures
        ({
            let s2 = upsert_where(s, p, v);
            let i = first_where(s2, p);
            0 <= i < s2.len() && s2[i] == v
        }),
{
    lemma_first_where(s, p);
    let f = first_where(s, p);
    if f >= 0 {
        let s2 = s.update(f, v);
        assert forall|j: int| 0 <= j < f implies !p(s2[j]) by {
            assert(s2[j] == s[j]);
        }
        lemma_first_where_is(s2, p, f);
    } else {
        let s2 = s.push(v);
        assert forall|j: int| 0 <= j < s.len() implies !p(s2[j]) by {
            assert(s2[j] == s[j]);
        }
        lemma_first_where_is(s2, p, s.len() as int);
    }
}

/// After removing every match of a key, nothing matches it.
pub proof fn lemma_remove_where_gone<T>(s: Seq<T>, p: spec_fn(T) -> bool)
    ensures
        first_where(remove_where(s, p), p) == -1,
{
    let rw = remove_where(s, p);
    assert forall|i: int| 0 <= i < rw.len() implies !p(rw[i]) by {
        s.lemma_filter_pred(not_of(p), i);
    }
    lemma_first_where_none(rw, p);
}

/// Filtering keeps a sequence whole when every element passes.
pub proof fn lemma_filter_all<T>(s: Seq<T>, p: spec_fn(T) -> bool)
    requires
        forall|i: int| 0 <= i < s.len() ==> p(#[trigger] s[i]),
    ensures
        s.filter(p) == s,
    decreases s.len(),
{
    reveal(Seq::filter);
    if s.len() > 0 {
        assert(forall|i: int| 0 <= i < s.drop_last().len() ==> p(#[trigger] s.drop_last()[i]));
        lemma_filter_all(s.drop_last(), p);
        assert(s.drop_last().push(s.last()) =~= s);
    }
}


/// No two elements share a key.
pub open spec fn unique_by<T, K>(s: Seq<T>, key: spec_fn(T) -> K) -> bool {
    forall|i: int, j: int| 0 <= i < j < s.len() ==> key(#[trigger] s[i]) != key(#[trigger] s[j])
}

/// An upsert keyed exactly like `p` keeps keys unique: an existing key is
/// replaced in place, a fresh one is appended once.
pub proof fn lemma_upsert_where_keeps_unique<T, K>(
    s: Seq<T>,
    p: spec_fn(T) -> bool,
    v: T,
    key: spec_fn(T) -> K,
)
    requires
        unique_by(s, key),
        forall|x: T| #[trigger] p(x) <==> key(x) == key(v),
    ensures
        unique_by(upsert_where(s, p, v), key),
{
    lemma_first_where(s, p);
    let f = first_where(s, p);
    let s2 = upsert_where(s, p, v);
    if f >= 0 {
        assert(key(s[f]) == key(v));
        assert forall|i: int, j: int| 0 <= i < j < s2.len() implies key(#[trigger] s2[i]) != key(
            #[trigger] s2[j],
        ) by {
            if i != f && j != f {
                assert(s2[i] == s[i] && s2[j] == s[j]);
            } else if i == f {
                assert(s2[j] == s[j]);
                assert(key(s2[i]) == key(s[f]));
            } else {
                assert(s2[i] == s[i]);
                assert(key(s2[j]) == key(s[f]));
            }
        }
    } else {
        assert forall|i: int| 0 <= i < s.len() implies key(#[trigger] s[i]) != key(v) by {
            if key(s[i]) == key(v) {
                assert(p(s[i]));
            }
        }
        assert forall|i: int, j: int| 0 <= i < j < s2.len() implies key(#[trigger] s2[i]) != key(
            #[trigger] s2[j],
        ) by {
            if j < s.len() {
                assert(s2[i] == s[i] && s2[j] == s[j]);
            } else {
                assert(s2[i] == s[i] && s2[j] == v);
            }
        }
    }
}

/// Removing rows keeps keys unique.
pub proof fn lemma_remove_where_keeps_unique<T, K>(
    s: Seq<T>,
    p: spec_fn(T) -> bool,
    key: spec_fn(T) -> K,
)
    requires
        unique_by(s, key),
    ensures
        unique_by(remove_where(s, p), key),
{
    lemma_filter_keeps_unique(s, not_of(p), key);
}

/// Filtering keeps keys unique.
pub proof fn lemma_filter_keeps_unique<T, K>(
    s: Seq<T>,
    q: spec_fn(T) -> bool,
    key: spec_fn(T) -> K,
)
    requires
        unique_by(s, key),
    ensures
        unique_by(s.filter(q), key),
    decreases s.len(),
{
    reveal(Seq::filter);
    if s.len() > 0 {
        let dl = s.drop_last();
        assert(unique_by(dl, key)) by {
            assert forall|i: int, j: int| 0 <= i < j < dl.len() implies key(#[trigger] dl[i])
                != key(#[trigger] dl[j]) by {
                assert(dl[i] == s[i] && dl[j] == s[j]);
            }
        }
        lemma_filter_keeps_unique(dl, q, key);
        let fdl = dl.filter(q);
        if q(s.last()) {
            assert forall|j: int| 0 <= j < fdl.len() implies key(#[trigger] fdl[j]) != key(
                s.last(),
            ) by {
                dl.lemma_filter_contains_rev(q, fdl[j]);
                let i = choose|i: int| 0 <= i < dl.len() && dl[i] == fdl[j];
                assert(dl[i] == s[i]);
                assert(key(s[i]) != key(s[s.len() - 1]));
            }
            assert forall|i: int, j: int|
                0 <= i < j < s.filter(q).len() implies key(#[trigger] s.filter(q)[i]) != key(
                #[trigger] s.filter(q)[j],
            ) by {
                if j < fdl.len() {
                    assert(s.filter(q)[i] == fdl[i] && s.filter(q)[j] == fdl[j]);
                } else {
                    assert(s.filter(q)[i] == fdl[i] && s.filter(q)[j] == s.last());
                }
            }
        }
    }
}

/// A push of a fresh key keeps keys unique.
pub proof fn lemma_push_fresh_keeps_unique<T, K>(s: Seq<T>, v: T, key: spec_fn(T) -> K)
    requires
        unique_by(s, key),
        forall|i: int| 0 <= i < s.len() ==> key(#[trigger] s[i]) != key(v),
    ensures
        unique_by(s.push(v), key),
{
    let s2 = s.push(v);
    assert forall|i: int, j: int| 0 <= i < j < s2.len() implies key(#[trigger] s2[i]) != key(
        #[trigger] s2[j],
    ) by {
        if j < s.len() {
            assert(s2[i] == s[i] && s2[j] == s[j]);
        } else {
            assert(s2[i] == s[i] && s2[j] == v);
        }
    }
}

} // verus!
