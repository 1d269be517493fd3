//! The in-memory session cache: per sender key, an insertion-ordered list of
//! pairwise sessions, lazily hydrated from the row image.
//!
//! An entry is only ever created with a non-empty list (hydration records no
//! empty entries), and a list is only appended to or updated in place by
//! session id — never replaced wholesale.

use vstd::prelude::*;
use crate::records::{str_eq, Session, SessionV};
use crate::seq_find::{
    first_where, upsert_where, lemma_first_where, lemma_first_where_is, lemma_first_where_none,
};

verus! {

/// The cached sessions of one sender key.
pub struct CacheEntry {
    pub sender_key: String,
    pub sessions: Vec<Session>,
}

#[verifier::ext_equal]
pub ghost struct CacheEntryV {
    pub sender_key: Seq<char>,
    pub sessions: Seq<SessionV>,
}

/// View of a list of sessions.
pub open spec fn sess_list_v(s: Seq<Session>) -> Seq<SessionV> {
    s.map_values(|x: Session| x@)
}

impl View for CacheEntry {
    type V = CacheEntryV;

    open spec fn view(&self) -> CacheEntryV {
        CacheEntryV { sender_key: self.sender_key@, sessions: sess_list_v(self.sessions@) }
    }
}

/// The key predicate of a cache entry.
pub open spec fn cache_key(k: Seq<char>) -> spec_fn(CacheEntryV) -> bool {
    |e: CacheEntryV| e.sender_key == k
}

/// The key predicate of a cached session.
pub open spec fn cached_sess_id(id: Seq<char>) -> spec_fn(SessionV) -> bool {
    |s: SessionV| s.session_id == id
}

/// The cached list for a sender key, if one was recorded.
pub open spec fn cache_lookup(c: Seq<CacheEntryV>, k: Seq<char>) -> Option<Seq<SessionV>> {
    let i = first_where(c, cache_key(k));
    if i >= 0 {
        Some(c[i].sessions)
    } else {
        None
    }
}

/// Copy a list of sessions.
pub fn clone_sessions(v: &Vec<Session>) -> (r: Vec<Session>)
    ensures
        sess_list_v(r@) == sess_list_v(v@),
{
    let mut r: Vec<Session> = Vec::new();
    let mut i: usize = 0;
    while i < v.len()
        invariant
            i <= v.len(),
            r@.len() == i,
            sess_list_v(r@) =~= sess_list_v(v@).take(i as int),
        decreases v.len() - i,
    {
        r.push(v[i].clone());
        proof {
            assert(sess_list_v(r@) =~= sess_list_v(v@).take(i as int + 1));
        }
        i += 1;
    }
    proof {
        assert(sess_list_v(v@).take(v@.len() as int) =~= sess_list_v(v@));
    }
    r
}

/// The in-memory cache.
pub struct SessionCache {
    pub entries: Vec<CacheEntry>,
}

impl View for SessionCache {
    type V = Seq<CacheEntryV>;

    open spec fn view(&self) -> Seq<CacheEntryV> {
        self.entries@.map_values(|e: CacheEntry| e@)
    }
}

impl SessionCache {
    /// An empty cache, as a fresh store starts with.
    pub fn new() -> (r: SessionCache)
        ensures
            r@ == Seq::<CacheEntryV>::empty(),
    {
        let r = SessionCache { entries: Vec::new() };
        proof {
            assert(r@ =~= Seq::<CacheEntryV>::empty());
        }
        r
    }

    /// Index of the entry for this sender key, if one was recorded.
    #[verifier::loop_isolation(false)]
    pub fn find(&self, sender_key: &str) -> (r: Option<usize>)
        ensures
            r matches Some(i) ==> first_where(self@, cache_key(sender_key@)) == i as int,
            r is None ==> first_where(self@, cache_key(sender_key@)) == -1,
    {
        let ghost p = cache_key(sender_key@);
        let mut i: usize = 0;
        let n = self.entries.len();
        while i < n
            invariant
                n == self.entries.len(),
                i <= n,
                forall|j: int| 0 <= j < i ==> !p(self@[j]),
            decreases n - i,
        {
            if str_eq(self.entries[i].sender_key.as_str(), sender_key) {
                proof {
                    assert(p(self@[i as int]));
                    lemma_first_where_is(self@, p, i as int);
                }
                return Some(i);
            }
            proof {
                assert(!p(self@[i as int]));
            }
            i += 1;
        }
        proof {
            lemma_first_where_none(self@, p);
        }
        None
    }

    /// A copy of the cached list for this sender key, if one was recorded.
    #[verifier::loop_isolation(false)]
    pub fn get_clone(&self, sender_key: &str) -> (r: Option<Vec<Session>>)
        ensures
            ({
                match cache_lookup(self@, sender_key@) {
                    Some(l) => r matches Some(v) && sess_list_v(v@) == l,
                    None => r is None,
                }
            }),
    {
        let found = self.find(sender_key);
        match found {
            Some(i) => {
                proof {
                    lemma_first_where(self@, cache_key(sender_key@));
                }
                Some(clone_sessions(&self.entries[i].sessions))
            },
            None => None,
        }
    }

    /// Record the list for a sender key, replacing any previous entry.
    #[verifier::loop_isolation(false)]
    pub fn set_for_sender(&mut self, sender_key: &str, sessions: Vec<Session>)
        ensures
            final(self)@ == upsert_where(
                old(self)@,
                cache_key(sender_key@),
                CacheEntryV { sender_key: sender_key@, sessions: sess_list_v(sessions@) },
            ),
    {
        let ghost p = cache_key(sender_key@);
        let ghost orig = self@;
        let ghost ev = CacheEntryV { sender_key: sender_key@, sessions: sess_list_v(sessions@) };
        let found = self.find(sender_key);
        match found {
            Some(i) => {
                proof {
                    lemma_first_where(orig, p);
                }
                let entry = CacheEntry { sender_key: sender_key.to_owned(), sessions };
                self.entries[i] = entry;
                proof {
                    assert(self@ =~= orig.update(i as int, ev));
                    assert(self@ =~= upsert_where(orig, p, ev));
                }
            },
            None => {
                let entry = CacheEntry { sender_key: sender_key.to_owned(), sessions };
                self.entries.push(entry);
                proof {
                    assert(self@ =~= orig.push(ev));
                    assert(self@ =~= upsert_where(orig, p, ev));
                }
            },
        }
    }

    /// Add one session: upsert by session id into its sender's list, making
    /// the entry if the sender had none.
    #[verifier::loop_isolation(false)]
    pub fn add(&mut self, s: &Session)
        ensures
            final(self)@ == upsert_where(
                old(self)@,
                cache_key(s@.sender_key),
                CacheEntryV {
                    sender_key: s@.sender_key,
                    sessions: ({
                        let prev = match cache_lookup(old(self)@, s@.sender_key) {
                            Some(l) => l,
                            None => Seq::empty(),
                        };
                        upsert_where(prev, cached_sess_id(s@.session_id), s@)
                    }),
                },
            ),
    {
        let ghost p = cache_key(s@.sender_key);
        let ghost orig = self@;
        let found = self.find(s.sender_key.as_str());
        match found {
            Some(i) => {
                proof {
                    lemma_first_where(orig, p);
                }
                let updated = list_add(&self.entries[i].sessions, s);
                let ghost ev = CacheEntryV {
                    sender_key: s@.sender_key,
                    sessions: sess_list_v(updated@),
                };
                let entry = CacheEntry { sender_key: s.sender_key.clone(), sessions: updated };
                self.entries[i] = entry;
                proof {
                    assert(self@ =~= orig.update(i as int, ev));
                    assert(self@ =~= upsert_where(orig, p, ev));
                }
            },
            None => {
                let mut sessions: Vec<Session> = Vec::new();
                sessions.push(s.clone());
                let ghost ev = CacheEntryV {
                    sender_key: s@.sender_key,
                    sessions: sess_list_v(sessions@),
                };
                proof {
                    assert(sess_list_v(sessions@) =~= Seq::<SessionV>::empty().push(s@));
                    lemma_first_where_none(
                        Seq::<SessionV>::empty(),
                        cached_sess_id(s@.session_id),
                    );
                }
                let entry = CacheEntry { sender_key: s.sender_key.clone(), sessions };
                self.entries.push(entry);
                proof {
                    assert(self@ =~= orig.push(ev));
                    assert(self@ =~= upsert_where(orig, p, ev));
                }
            },
        }
    }
}

/// A session list with one session upserted by its id: updated in place if
/// the id is present, appended otherwise.
#[verifier::loop_isolation(false)]
pub fn list_add(list: &Vec<Session>, s: &Session) -> (r: Vec<Session>)
    ensures
        sess_list_v(r@) == upsert_where(
            sess_list_v(list@),
            cached_sess_id(s@.session_id),
            s@,
        ),
{
    let ghost p = cached_sess_id(s@.session_id);
    let ghost lv = sess_list_v(list@);
    let mut r = clone_sessions(list);
    let mut i: usize = 0;
    let n = r.len();
    proof {
        assert(lv.len() == list@.len());
    }
    while i < n
        invariant
            n == r.len(),
            i <= n,
            sess_list_v(r@) == lv,
            forall|j: int| 0 <= j < i ==> !p(lv[j]),
        decreases n - i,
    {
        if str_eq(r[i].session_id.as_str(), s.session_id.as_str()) {
            proof {
                assert(sess_list_v(r@)[i as int] == r@[i as int]@);
                assert(p(lv[i as int]));
                lemma_first_where_is(lv, p, i as int);
            }
            r[i] = s.clone();
            proof {
                assert(sess_list_v(r@) =~= lv.update(i as int, s@));
            }
            return r;
        }
        proof {
            assert(sess_list_v(r@)[i as int] == r@[i as int]@);
            assert(!p(lv[i as int]));
        }
        i += 1;
    }
    proof {
        lemma_first_where_none(lv, p);
    }
    r.push(s.clone());
    proof {
        assert(sess_list_v(r@) =~= lv.push(s@));
    }
    r
}

} // verus!
