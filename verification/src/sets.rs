//! The in-memory tracked-user registry is kept in dashmap's concurrent sets,
//! as declared outside types; their contents are named by [`dash_elems`] and
//! every method the store calls is wrapped with a contract over that name.

use vstd::prelude::*;
use crate::records::svs;

verus! {

#[verifier::external_type_specification]
#[verifier::external_body]
#[verifier::reject_recursive_types(K)]
#[verifier::reject_recursive_types(S)]
pub struct ExDashSet<K, S>(dashmap::DashSet<K, S>);

/// A concurrent set of user-id strings.
pub type UserSet = dashmap::DashSet<String, std::collections::hash_map::RandomState>;

/// The elements a `UserSet` holds.
pub uninterp spec fn dash_elems(s: UserSet) -> Set<Seq<char>>;

/// Relies on dashmap's DashSet::new: it makes an empty set.
#[verifier::external_body]
pub fn dash_new() -> (r: UserSet)
    ensures
        dash_elems(r) == Set::<Seq<char>>::empty(),
{
    dashmap::DashSet::new()
}

/// Relies on dashmap's DashSet::insert: it adds the value and returns whether
/// the value was absent.
#[verifier::external_body]
pub fn dash_insert(s: &mut UserSet, v: String) -> (r: bool)
    ensures
        dash_elems(*final(s)) == dash_elems(*old(s)).insert(v@),
        r == !dash_elems(*old(s)).contains(v@),
{
    s.insert(v)
}

/// Relies on dashmap's DashSet::remove: it takes the value out if present.
#[verifier::external_body]
pub fn dash_remove(s: &mut UserSet, v: &str)
    ensures
        dash_elems(*final(s)) == dash_elems(*old(s)).remove(v@),
{
    s.remove(v);
}

/// Relies on dashmap's DashSet::contains: membership.
#[verifier::external_body]
pub fn dash_contains(s: &UserSet, v: &str) -> (r: bool)
    ensures
        r == dash_elems(*s).contains(v@),
{
    s.contains(v)
}

/// Relies on dashmap's DashSet::is_empty: whether the set holds nothing.
#[verifier::external_body]
pub fn dash_is_empty(s: &UserSet) -> (r: bool)
    ensures
        r == (dash_elems(*s) == Set::<Seq<char>>::empty()),
{
    s.is_empty()
}

/// Relies on dashmap's DashSet iteration over a quiescent set: it visits each
/// element exactly once, in no fixed order.
#[verifier::external_body]
pub fn dash_to_vec(s: &UserSet) -> (r: Vec<String>)
    ensures
        svs(r@).to_set() == dash_elems(*s),
        svs(r@).no_duplicates(),
{
    s.iter().map(|x| x.key().clone()).collect()
}

} // verus!
