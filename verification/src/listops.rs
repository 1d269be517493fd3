//! Keyed list operations.
//!
//! Child rows of a device or group session live as keyed lists beside their
//! parent: algorithms (keyed by themselves), key maps (keyed by the first
//! component), signature maps (keyed by the first two).  Saves are
//! additive-only: a pair already present under its key is left as it is, a
//! missing one is appended.  These helpers give that behaviour exact
//! specifications.

use vstd::prelude::*;
use crate::records::{str_eq, svs, spv, stv};
use crate::seq_find::has_where;

verus! {

/// The key predicate of a pair list: the first component.
pub open spec fn pair_key_is(k: Seq<char>) -> spec_fn((Seq<char>, Seq<char>)) -> bool {
    |p: (Seq<char>, Seq<char>)| p.0 == k
}

/// The key predicate of a triple list: the first two components.
pub open spec fn triple_key_is(a: Seq<char>, b: Seq<char>) -> spec_fn(
    (Seq<char>, Seq<char>, Seq<char>),
) -> bool {
    |t: (Seq<char>, Seq<char>, Seq<char>)| t.0 == a && t.1 == b
}

/// Append each element of `extra` that `base` does not already hold, in
/// order; what is present already stays untouched.
pub open spec fn add_missing_strings(base: Seq<Seq<char>>, extra: Seq<Seq<char>>) -> Seq<Seq<char>>
    decreases extra.len(),
{
    if extra.len() == 0 {
        base
    } else {
        let pre = add_missing_strings(base, extra.drop_last());
        if pre.contains(extra.last()) {
            pre
        } else {
            pre.push(extra.last())
        }
    }
}

/// Append each pair of `extra` whose key `base` does not already hold.
pub open spec fn add_missing_pairs(
    base: Seq<(Seq<char>, Seq<char>)>,
    extra: Seq<(Seq<char>, Seq<char>)>,
) -> Seq<(Seq<char>, Seq<char>)>
    decreases extra.len(),
{
    if extra.len() == 0 {
        base
    } else {
        let pre = add_missing_pairs(base, extra.drop_last());
        if has_where(pre, pair_key_is(extra.last().0)) {
            pre
        } else {
            pre.push(extra.last())
        }
    }
}

/// Append each triple of `extra` whose key `base` does not already hold.
pub open spec fn add_missing_triples(
    base: Seq<(Seq<char>, Seq<char>, Seq<char>)>,
    extra: Seq<(Seq<char>, Seq<char>, Seq<char>)>,
) -> Seq<(Seq<char>, Seq<char>, Seq<char>)>
    decreases extra.len(),
{
    if extra.len() == 0 {
        base
    } else {
        let pre = add_missing_triples(base, extra.drop_last());
        if has_where(pre, triple_key_is(extra.last().0, extra.last().1)) {
            pre
        } else {
            pre.push(extra.last())
        }
    }
}

/// Whether the list holds this string.
pub fn contains_string(v: &Vec<String>, x: &str) -> (r: bool)
    ensures
        r == svs(v@).contains(x@),
{
    let mut i: usize = 0;
    while i < v.len()
        invariant
            i <= v.len(),
            forall|j: int| 0 <= j < i ==> svs(v@)[j] != x@,
        decreases v.len() - i,
    {
        if str_eq(v[i].as_str(), x) {
            proof {
                assert(svs(v@)[i as int] == x@);
            }
            return true;
        }
        i += 1;
    }
    proof {
        assert forall|k: int| 0 <= k < svs(v@).len() implies svs(v@)[k] != x@ by {}
    }
    false
}

/// Whether the pair list holds this key.
pub fn has_pair_key(v: &Vec<(String, String)>, k: &str) -> (r: bool)
    ensures
        r == has_where(spv(v@), pair_key_is(k@)),
{
    let mut i: usize = 0;
    while i < v.len()
        invariant
            i <= v.len(),
            forall|j: int| 0 <= j < i ==> spv(v@)[j].0 != k@,
        decreases v.len() - i,
    {
        if str_eq(v[i].0.as_str(), k) {
            proof {
                assert(pair_key_is(k@)(spv(v@)[i as int]));
            }
            return true;
        }
        i += 1;
    }
    proof {
        assert forall|j: int| 0 <= j < spv(v@).len() implies !(pair_key_is(k@)(spv(v@)[j])) by {}
    }
    false
}

/// Whether the triple list holds this key.
pub fn has_triple_key(v: &Vec<(String, String, String)>, a: &str, b: &str) -> (r: bool)
    ensures
        r == has_where(stv(v@), triple_key_is(a@, b@)),
{
    let mut i: usize = 0;
    while i < v.len()
        invariant
            i <= v.len(),
            forall|j: int| 0 <= j < i ==> !(stv(v@)[j].0 == a@ && stv(v@)[j].1 == b@),
        decreases v.len() - i,
    {
        if str_eq(v[i].0.as_str(), a) && str_eq(v[i].1.as_str(), b) {
            proof {
                assert(triple_key_is(a@, b@)(stv(v@)[i as int]));
            }
            return true;
        }
        i += 1;
    }
    proof {
        assert forall|j: int|
            0 <= j < stv(v@).len() implies !(triple_key_is(a@, b@)(stv(v@)[j])) by {}
    }
    false
}

/// Append the strings of `src` that `dst` does not already hold.
pub fn merge_strings(dst: &mut Vec<String>, src: &Vec<String>)
    ensures
        svs(final(dst)@) == add_missing_strings(svs(old(dst)@), svs(src@)),
{
    let mut i: usize = 0;
    while i < src.len()
        invariant
            i <= src.len(),
            svs(dst@) == add_missing_strings(svs(old(dst)@), svs(src@).take(i as int)),
        decreases src.len() - i,
    {
        let ghost e = svs(src@);
        let ghost pre = svs(dst@);
        let present = contains_string(dst, src[i].as_str());
        if !present {
            dst.push(src[i].clone());
            proof {
                assert(svs(dst@) =~= pre.push(e[i as int]));
            }
        }
        proof {
            assert(e.take(i as int + 1).drop_last() =~= e.take(i as int));
            assert(e.take(i as int + 1).last() == e[i as int]);
        }
        i += 1;
    }
    proof {
        assert(svs(src@).take(src@.len() as int) =~= svs(src@));
    }
}

/// Append the pairs of `src` whose key `dst` does not already hold.
pub fn merge_pairs(dst: &mut Vec<(String, String)>, src: &Vec<(String, String)>)
    ensures
        spv(final(dst)@) == add_missing_pairs(spv(old(dst)@), spv(src@)),
{
    let mut i: usize = 0;
    while i < src.len()
        invariant
            i <= src.len(),
            spv(dst@) == add_missing_pairs(spv(old(dst)@), spv(src@).take(i as int)),
        decreases src.len() - i,
    {
        let ghost e = spv(src@);
        let ghost pre = spv(dst@);
        let present = has_pair_key(dst, src[i].0.as_str());
        if !present {
            let p = (src[i].0.clone(), src[i].1.clone());
            dst.push(p);
            proof {
                assert(spv(dst@) =~= pre.push(e[i as int]));
            }
        }
        proof {
            assert(e.take(i as int + 1).drop_last() =~= e.take(i as int));
            assert(e.take(i as int + 1).last() == e[i as int]);
        }
        i += 1;
    }
    proof {
        assert(spv(src@).take(src@.len() as int) =~= spv(src@));
    }
}

/// Append the triples of `src` whose key `dst` does not already hold.
pub fn merge_triples(dst: &mut Vec<(String, String, String)>, src: &Vec<(String, String, String)>)
    ensures
        stv(final(dst)@) == add_missing_triples(stv(old(dst)@), stv(src@)),
{
    let mut i: usize = 0;
    while i < src.len()
        invariant
            i <= src.len(),
            stv(dst@) == add_missing_triples(stv(old(dst)@), stv(src@).take(i as int)),
        decreases src.len() - i,
    {
        let ghost e = stv(src@);
        let ghost pre = stv(dst@);
        let present = has_triple_key(dst, src[i].0.as_str(), src[i].1.as_str());
        if !present {
            let p = (src[i].0.clone(), src[i].1.clone(), src[i].2.clone());
            dst.push(p);
            proof {
                assert(stv(dst@) =~= pre.push(e[i as int]));
            }
        }
        proof {
            assert(e.take(i as int + 1).drop_last() =~= e.take(i as int));
            assert(e.take(i as int + 1).last() == e[i as int]);
        }
        i += 1;
    }
    proof {
        assert(stv(src@).take(src@.len() as int) =~= stv(src@));
    }
}

} // verus!
