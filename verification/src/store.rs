//! The store: the row image plus the in-memory state around it — the cached
//! account info that gates every per-account operation, the lazily hydrated
//! session cache, the tracked-user sets, and the resolved pickle key.
//!
//! Opening a store takes the row image its caller read from disk and hands it
//! back on close; reopening with the image a closed store returned models a
//! process restart.

use vstd::prelude::*;
use crate::records::{
    str_eq, svs, spv, stv, Account, AccountV, IdentityKeys, IdentityKeysV, Session, SessionV,
    InboundGroupSession, InboundGroupSessionV, Device, DeviceV, CrossSigningKey,
    CrossSigningKeyV, UserIdentities, UserIdentitiesV, OwnIdentity, OwnIdentityV, OtherIdentity,
    OtherIdentityV,
    PrivateIdentity, PrivateIdentityV, OlmMessageHash, OlmMessageHashV, Changes, ChangesV,
    StoreError, Dur, clone_strings, clone_pairs, clone_triples,
};
use crate::tables::{
    Tables, TablesV, SessionRow, SessionRowV, TrackedUserRowV, KeyValueRowV, OlmHashRowV,
    PickleKeyRowV, UserRow, UserRowV, CrossSigningKeyRow, CrossSigningKeyRowV, DeviceRowV,
    GroupSessionRowV, PrivateIdentityRowV, acct_key, sess_id_is, sess_for, tracked_key, kv_key,
    hash_key, priv_key, priv_for, pk_key, device_key, device_for, group_key, group_for,
    user_key, found_device, found_device_in, found_group, found_group_in, found_user,
    found_user_in, device_saved, group_saved, user_row_saved,
    csk_row_v,
};
use crate::cache::{SessionCache, CacheEntryV, cache_key, cache_lookup, sess_list_v};
use crate::pickle::{
    PickleKey, PickleKeyV, SealedPickleKey, SealedPickleKeyV, default_pickle_key,
    default_pickle_bytes, seal_pickle_key, open_pickle_key, clone_bytes,
};
use crate::sets::{UserSet, dash_elems, dash_new, dash_insert, dash_remove, dash_contains,
    dash_is_empty, dash_to_vec};
use crate::seq_find::{
    first_where, has_where, upsert_where, remove_where, lemma_first_where,
    lemma_first_where_is, lemma_first_where_none,
};
use crate::json::{duration_json, duration_decoded, duration_to_json, duration_from_json,
    string_list_json,
    string_list_from_json};
use crate::ids::{user_id_ok, user_id_valid, room_id_ok, room_id_valid};

verus! {

/// The cached account info: the account row's index, which scopes every
/// dependent row, and the account's identity keys.
pub struct AccountInfo {
    pub account_id: usize,
    pub identity_keys: IdentityKeys,
}

#[verifier::ext_equal]
pub ghost struct AccountInfoV {
    pub account_id: usize,
    pub identity_keys: IdentityKeysV,
}

impl View for AccountInfo {
    type V = AccountInfoV;

    open spec fn view(&self) -> AccountInfoV {
        AccountInfoV { account_id: self.account_id, identity_keys: self.identity_keys@ }
    }
}

/// The store.
pub struct Store {
    pub user_id: String,
    pub device_id: String,
    pub account_info: Option<AccountInfo>,
    pub session_cache: SessionCache,
    pub tracked_users: UserSet,
    pub users_for_key_query: UserSet,
    pub pickle_key: PickleKey,
    pub tables: Tables,
}

#[verifier::ext_equal]
pub ghost struct StoreV {
    pub user_id: Seq<char>,
    pub device_id: Seq<char>,
    pub account_info: Option<AccountInfoV>,
    pub cache: Seq<CacheEntryV>,
    pub tracked_set: Set<Seq<char>>,
    pub dirty: Set<Seq<char>>,
    pub pickle_key: PickleKeyV,
    pub tables: TablesV,
}

impl View for Store {
    type V = StoreV;

    open spec fn view(&self) -> StoreV {
        StoreV {
            user_id: self.user_id@,
            device_id: self.device_id@,
            account_info: match &self.account_info {
                Some(i) => Some(i@),
                None => None,
            },
            cache: self.session_cache@,
            tracked_set: dash_elems(self.tracked_users),
            dirty: dash_elems(self.users_for_key_query),
            pickle_key: self.pickle_key@,
            tables: self.tables@,
        }
    }
}

/// A freshly opened store over a row image: no account loaded, empty caches,
/// the given pickle key.
pub open spec fn opened_store(
    u: Seq<char>,
    d: Seq<char>,
    t: TablesV,
    protected: bool,
    key: Seq<u8>,
) -> StoreV {
    StoreV {
        user_id: u,
        device_id: d,
        account_info: None,
        cache: Seq::empty(),
        tracked_set: Set::empty(),
        dirty: Set::empty(),
        pickle_key: PickleKeyV { passphrase_protected: protected, key },
        tables: t,
    }
}

/// The users a tracked-user prefix of rows hydrates, for one account: the
/// well-formed user ids among its first `n` rows.
pub open spec fn tracked_prefix(
    rows: Seq<TrackedUserRowV>,
    aid: usize,
    n: int,
) -> Set<Seq<char>> {
    Set::new(
        |u: Seq<char>|
            user_id_ok(u) && exists|j: int|
                0 <= j < n && rows[j].account_id == aid && rows[j].user_id == u,
    )
}

/// The dirty users a tracked-user prefix of rows hydrates, for one account.
pub open spec fn dirty_prefix(rows: Seq<TrackedUserRowV>, aid: usize, n: int) -> Set<Seq<char>> {
    Set::new(
        |u: Seq<char>|
            user_id_ok(u) && exists|j: int|
                0 <= j < n && rows[j].account_id == aid && rows[j].user_id == u && rows[j].dirty,
    )
}

/// The tracked users stored for an account, well-formed ids only.
pub open spec fn tracked_set_of(t: TablesV, aid: usize) -> Set<Seq<char>> {
    tracked_prefix(t.tracked_users, aid, t.tracked_users.len() as int)
}

/// The dirty tracked users stored for an account, well-formed ids only.
pub open spec fn dirty_set_of(t: TablesV, aid: usize) -> Set<Seq<char>> {
    dirty_prefix(t.tracked_users, aid, t.tracked_users.len() as int)
}

impl Store {
    /// Open a store for one (user, device) over a row image, with the fixed
    /// fallback pickle key — callers needing confidentiality use
    /// [`Store::open_with_passphrase`].
    pub fn open(user_id: &str, device_id: &str, tables: Tables) -> (r: Store)
        ensures
            r@ == opened_store(user_id@, device_id@, tables@, false, default_pickle_bytes()),
    {
        let r = Store {
            user_id: user_id.to_owned(),
            device_id: device_id.to_owned(),
            account_info: None,
            session_cache: SessionCache::new(),
            tracked_users: dash_new(),
            users_for_key_query: dash_new(),
            pickle_key: PickleKey { passphrase_protected: false, key: default_pickle_key() },
            tables,
        };
        proof {
            assert(r@ =~= opened_store(
                user_id@,
                device_id@,
                r.tables@,
                false,
                default_pickle_bytes(),
            ));
        }
        r
    }

    /// Open a store with a passphrase-protected pickle key: a stored sealed
    /// key is opened with the passphrase and rejected as `UnpicklingError`
    /// when it does not match; with none stored, `fresh_key` (drawn by the
    /// caller) is sealed under the passphrase and persisted.
    pub fn open_with_passphrase(
        user_id: &str,
        device_id: &str,
        tables: Tables,
        passphrase: &str,
        fresh_key: Vec<u8>,
    ) -> (r: Result<Store, StoreError>)
        ensures
            ({
                let i = first_where(tables@.pickle_keys, pk_key(user_id@, device_id@));
                if i >= 0 {
                    if tables@.pickle_keys[i].sealed.passphrase == passphrase@ {
                        r matches Ok(s) && s@ == opened_store(
                            user_id@,
                            device_id@,
                            tables@,
                            true,
                            tables@.pickle_keys[i].sealed.key,
                        )
                    } else {
                        r == Err::<Store, StoreError>(StoreError::UnpicklingError)
                    }
                } else {
                    r matches Ok(s) && s@ == opened_store(
                        user_id@,
                        device_id@,
                        (TablesV {
                            pickle_keys: tables@.pickle_keys.push(
                                PickleKeyRowV {
                                    user_id: user_id@,
                                    device_id: device_id@,
                                    sealed: SealedPickleKeyV {
                                        passphrase: passphrase@,
                                        key: fresh_key@,
                                    },
                                },
                            ),
                            ..tables@
                        }),
                        true,
                        fresh_key@,
                    )
                }
            }),
    {
        let ghost fk = fresh_key@;
        let ghost tv = tables@;
        let mut tables = tables;
        let found = tables.find_pickle_key(user_id, device_id);
        let key: Vec<u8> = match found {
            Some(sealed) => {
                proof {
                    lemma_first_where(tv.pickle_keys, pk_key(user_id@, device_id@));
                }
                match open_pickle_key(passphrase, &sealed) {
                    Ok(k) => k,
                    Err(e) => {
                        return Err(e);
                    },
                }
            },
            None => {
                let key_copy = clone_bytes(&fresh_key);
                let sealed = seal_pickle_key(passphrase, fresh_key);
                tables.upsert_pickle_key(user_id, device_id, sealed);
                key_copy
            },
        };
        let r = Store {
            user_id: user_id.to_owned(),
            device_id: device_id.to_owned(),
            account_info: None,
            session_cache: SessionCache::new(),
            tracked_users: dash_new(),
            users_for_key_query: dash_new(),
            pickle_key: PickleKey { passphrase_protected: true, key },
            tables,
        };
        proof {
            assert(r@ =~= opened_store(user_id@, device_id@, r.tables@, true, r.pickle_key.key@));
        }
        Ok(r)
    }

    /// The raw pickle key every stored pickle is encrypted under; handed to
    /// the cryptographic layer, never interpreted here.
    pub fn get_pickle_key(&self) -> (r: &Vec<u8>)
        ensures
            r@ == self@.pickle_key.key,
    {
        &self.pickle_key.key
    }

    /// The encryption mode of the pickle key: whether a passphrase protects
    /// it, or the fixed public fallback is in use.
    pub fn get_pickle_mode(&self) -> (r: bool)
        ensures
            r == self@.pickle_key.passphrase_protected,
    {
        self.pickle_key.passphrase_protected
    }

    /// Close the store, handing back the row image for the caller to
    /// persist.
    pub fn into_tables(self) -> (r: Tables)
        ensures
            r@ == self@.tables,
    {
        self.tables
    }

    /// The cached account row index, if an account was saved or loaded.
    fn account_id(&self) -> (r: Option<usize>)
        ensures
            match self@.account_info {
                Some(info) => r == Some(info.account_id),
                None => r is None,
            },
    {
        match &self.account_info {
            Some(info) => Some(info.account_id),
            None => None,
        }
    }

    /// Upsert the local account row and cache its row index and identity
    /// keys; the universal precondition of every other per-account call.
    pub fn save_account(&mut self, account: Account) -> (r: Result<(), StoreError>)
        requires
            account@.user_id == old(self)@.user_id,
            account@.device_id == old(self)@.device_id,
        ensures
            r is Ok,
            final(self)@ == (StoreV {
                account_info: Some(
                    AccountInfoV {
                        account_id: saved_account_idx(old(self)@.tables, account@),
                        identity_keys: account@.identity_keys,
                    },
                ),
                tables: (TablesV {
                    accounts: upsert_where(
                        old(self)@.tables.accounts,
                        acct_key(account@.user_id, account@.device_id),
                        account@,
                    ),
                    ..old(self)@.tables
                }),
                ..old(self)@
            }),
    {
        let ghost av = account@;
        let keys = account.identity_keys.clone();
        let idx = self.tables.upsert_account(account);
        self.account_info = Some(AccountInfo { account_id: idx, identity_keys: keys });
        proof {
            assert(self@ =~= (StoreV {
                account_info: Some(
                    AccountInfoV {
                        account_id: saved_account_idx(old(self)@.tables, av),
                        identity_keys: av.identity_keys,
                    },
                ),
                tables: (TablesV {
                    accounts: upsert_where(
                        old(self)@.tables.accounts,
                        acct_key(av.user_id, av.device_id),
                        av,
                    ),
                    ..old(self)@.tables
                }),
                ..old(self)@
            }));
        }
        Ok(())
    }

    /// Load the local account: `None` if no row exists; otherwise the stored
    /// account, with the row index and identity keys cached and the
    /// tracked-user registry hydrated from storage.
    #[verifier::loop_isolation(false)]
    pub fn load_account(&mut self) -> (r: Result<Option<Account>, StoreError>)
        ensures
            ({
                let i = first_where(
                    old(self)@.tables.accounts,
                    acct_key(old(self)@.user_id, old(self)@.device_id),
                );
                if i >= 0 {
                    &&& r matches Ok(oa) && oa matches Some(acct) && acct@ == old(
                        self,
                    )@.tables.accounts[i]
                    &&& final(self)@ == (StoreV {
                        account_info: Some(
                            AccountInfoV {
                                account_id: i as usize,
                                identity_keys: old(self)@.tables.accounts[i].identity_keys,
                            },
                        ),
                        tracked_set: old(self)@.tracked_set.union(
                            tracked_set_of(old(self)@.tables, i as usize),
                        ),
                        dirty: old(self)@.dirty.union(
                            dirty_set_of(old(self)@.tables, i as usize),
                        ),
                        ..old(self)@
                    })
                } else {
                    r matches Ok(oa) && oa is None && final(self)@ == old(self)@
                }
            }),
    {
        let found = self.tables.find_account(self.user_id.as_str(), self.device_id.as_str());
        let ghost p = acct_key(self@.user_id, self@.device_id);
        match found {
            None => {
                proof {
                    assert(self@ =~= old(self)@);
                }
                Ok(None)
            },
            Some(idx) => {
                proof {
                    lemma_first_where(old(self)@.tables.accounts, p);
                }
                let account = self.tables.accounts[idx].clone();
                self.account_info = Some(
                    AccountInfo { account_id: idx, identity_keys: account.identity_keys.clone() },
                );
                let ghost rows = self@.tables.tracked_users;
                let mut i: usize = 0;
                let n = self.tables.tracked_users.len();
                while i < n
                    invariant
                        n == self.tables.tracked_users.len(),
                        i <= n,
                        self.user_id == old(self).user_id,
                        self.device_id == old(self).device_id,
                        self.tables == old(self).tables,
                        self.session_cache == old(self).session_cache,
                        self.pickle_key == old(self).pickle_key,
                        self@.account_info == Some(
                            AccountInfoV {
                                account_id: idx,
                                identity_keys: old(self)@.tables.accounts[idx as int]
                                    .identity_keys,
                            },
                        ),
                        dash_elems(self.tracked_users) == dash_elems(old(self).tracked_users)
                            .union(tracked_prefix(rows, idx, i as int)),
                        dash_elems(self.users_for_key_query) == dash_elems(
                            old(self).users_for_key_query,
                        ).union(dirty_prefix(rows, idx, i as int)),
                    decreases n - i,
                {
                    let ghost pre_t = dash_elems(self.tracked_users);
                    let ghost pre_d = dash_elems(self.users_for_key_query);
                    let row_aid = self.tables.tracked_users[i].account_id;
                    let row_dirty = self.tables.tracked_users[i].dirty;
                    let valid = user_id_valid(self.tables.tracked_users[i].user_id.as_str());
                    proof {
                        assert(rows[i as int] == self.tables.tracked_users@[i as int]@);
                    }
                    if row_aid == idx && valid {
                        let u = self.tables.tracked_users[i].user_id.clone();
                        let ghost uv = u@;
                        proof {
                            assert(rows[i as int].account_id == idx);
                            assert(rows[i as int].user_id == uv);
                            assert(user_id_ok(uv));
                        }
                        dash_insert(&mut self.tracked_users, u);
                        proof {
                            lemma_prefix_insert(rows, idx, i as int, false);
                            assert(dash_elems(self.tracked_users) =~= dash_elems(
                                old(self).tracked_users,
                            ).union(tracked_prefix(rows, idx, i + 1)));
                        }
                        if row_dirty {
                            let u2 = self.tables.tracked_users[i].user_id.clone();
                            dash_insert(&mut self.users_for_key_query, u2);
                            proof {
                                lemma_prefix_insert(rows, idx, i as int, true);
                                assert(dash_elems(self.users_for_key_query) =~= dash_elems(
                                    old(self).users_for_key_query,
                                ).union(dirty_prefix(rows, idx, i + 1)));
                            }
                        } else {
                            proof {
                                lemma_prefix_stable(rows, idx, i as int, true);
                                assert(dash_elems(self.users_for_key_query) =~= dash_elems(
                                    old(self).users_for_key_query,
                                ).union(dirty_prefix(rows, idx, i + 1)));
                            }
                        }
                    } else {
                        proof {
                            lemma_prefix_stable(rows, idx, i as int, false);
                            lemma_prefix_stable(rows, idx, i as int, true);
                            assert(dash_elems(self.tracked_users) =~= dash_elems(
                                old(self).tracked_users,
                            ).union(tracked_prefix(rows, idx, i + 1)));
                            assert(dash_elems(self.users_for_key_query) =~= dash_elems(
                                old(self).users_for_key_query,
                            ).union(dirty_prefix(rows, idx, i + 1)));
                        }
                    }
                    i += 1;
                }
                proof {
                    assert(self@ =~= (StoreV {
                        account_info: Some(
                            AccountInfoV {
                                account_id: idx,
                                identity_keys: old(self)@.tables.accounts[idx as int]
                                    .identity_keys,
                            },
                        ),
                        tracked_set: old(self)@.tracked_set.union(tracked_set_of(old(self)@.tables, idx)),
                        dirty: old(self)@.dirty.union(dirty_set_of(old(self)@.tables, idx)),
                        ..old(self)@
                    }));
                }
                Ok(Some(account))
            },
        }
    }
}

/// The account row index after an upsert: the row found by the key, or the
/// appended position.
pub open spec fn saved_account_idx(t: TablesV, a: AccountV) -> usize {
    let i = first_where(t.accounts, acct_key(a.user_id, a.device_id));
    if i >= 0 {
        i as usize
    } else {
        t.accounts.len() as usize
    }
}

/// A prefix set is unchanged by a row that does not contribute to it.
proof fn lemma_prefix_stable(rows: Seq<TrackedUserRowV>, aid: usize, i: int, dirty_set: bool)
    requires
        0 <= i < rows.len(),
    ensures
        (!(rows[i].account_id == aid && user_id_ok(rows[i].user_id)) || (dirty_set
            && !rows[i].dirty)) ==> (if dirty_set {
            dirty_prefix(rows, aid, i + 1) =~= dirty_prefix(rows, aid, i)
        } else {
            tracked_prefix(rows, aid, i + 1) =~= tracked_prefix(rows, aid, i)
        }),
{
    if !(rows[i].account_id == aid && user_id_ok(rows[i].user_id)) || (dirty_set
        && !rows[i].dirty) {
        if dirty_set {
            assert forall|u: Seq<char>| dirty_prefix(rows, aid, i + 1).contains(u) implies
                dirty_prefix(rows, aid, i).contains(u) by {
                let j = choose|j: int|
                    0 <= j < i + 1 && rows[j].account_id == aid && rows[j].user_id == u
                        && rows[j].dirty;
                assert(0 <= j < i);
            }
            assert forall|u: Seq<char>| dirty_prefix(rows, aid, i).contains(u) implies
                dirty_prefix(rows, aid, i + 1).contains(u) by {}
        } else {
            assert forall|u: Seq<char>| tracked_prefix(rows, aid, i + 1).contains(u) implies
                tracked_prefix(rows, aid, i).contains(u) by {
                let j = choose|j: int|
                    0 <= j < i + 1 && rows[j].account_id == aid && rows[j].user_id == u;
                assert(0 <= j < i);
            }
            assert forall|u: Seq<char>| tracked_prefix(rows, aid, i).contains(u) implies
                tracked_prefix(rows, aid, i + 1).contains(u) by {}
        }
    }
}

/// Extending a prefix by a contributing row inserts exactly that row's user.
proof fn lemma_prefix_insert(rows: Seq<TrackedUserRowV>, aid: usize, i: int, dirty_set: bool)
    requires
        0 <= i < rows.len(),
        rows[i].account_id == aid,
        user_id_ok(rows[i].user_id),
        dirty_set ==> rows[i].dirty,
    ensures
        dirty_set ==> dirty_prefix(rows, aid, i + 1) =~= dirty_prefix(rows, aid, i).insert(
            rows[i].user_id,
        ),
        !dirty_set ==> tracked_prefix(rows, aid, i + 1) =~= tracked_prefix(rows, aid, i).insert(
            rows[i].user_id,
        ),
{
    let u = rows[i].user_id;
    let base = if dirty_set {
        dirty_prefix(rows, aid, i)
    } else {
        tracked_prefix(rows, aid, i)
    };
    if dirty_set {
        assert forall|v: Seq<char>| dirty_prefix(rows, aid, i + 1).contains(v) implies
            base.insert(u).contains(v) by {
            let j = choose|j: int|
                0 <= j < i + 1 && rows[j].account_id == aid && rows[j].user_id == v
                    && rows[j].dirty;
            if j < i {
                assert(dirty_prefix(rows, aid, i).contains(v));
            } else {
                assert(v == u);
            }
        }
        assert forall|v: Seq<char>| base.insert(u).contains(v) implies dirty_prefix(
            rows,
            aid,
            i + 1,
        ).contains(v) by {
            if v == u {
                assert(0 <= i < i + 1 && rows[i].account_id == aid && rows[i].user_id == v
                    && rows[i].dirty);
            } else {
                let j = choose|j: int|
                    0 <= j < i && rows[j].account_id == aid && rows[j].user_id == v
                        && rows[j].dirty;
                assert(0 <= j < i + 1);
            }
        }
    } else {
        assert forall|v: Seq<char>| tracked_prefix(rows, aid, i + 1).contains(v) implies
            base.insert(u).contains(v) by {
            let j = choose|j: int|
                0 <= j < i + 1 && rows[j].account_id == aid && rows[j].user_id == v;
            if j < i {
                assert(tracked_prefix(rows, aid, i).contains(v));
            } else {
                assert(v == u);
            }
        }
        assert forall|v: Seq<char>| base.insert(u).contains(v) implies tracked_prefix(
            rows,
            aid,
            i + 1,
        ).contains(v) by {
            if v == u {
                assert(0 <= i < i + 1 && rows[i].account_id == aid && rows[i].user_id == v);
            } else {
                let j = choose|j: int| 0 <= j < i && rows[j].account_id == aid
                    && rows[j].user_id == v;
                assert(0 <= j < i + 1);
            }
        }
    }
}


/// The cached account row index; meaningful only when an account is set.
pub open spec fn aid_of(s: StoreV) -> usize {
    match s.account_info {
        Some(i) => i.account_id,
        None => 0,
    }
}

/// The session a stored row reconstructs, when both its timestamp texts
/// decode.
pub open spec fn session_of_row(row: SessionRowV) -> Option<SessionV> {
    match (duration_decoded(row.creation_time_json), duration_decoded(row.last_use_time_json)) {
        (Some(c), Some(l)) => Some(
            SessionV {
                session_id: row.session_id,
                sender_key: row.sender_key,
                creation_time: Dur { secs: c.0, nanos: c.1 },
                last_use_time: Dur { secs: l.0, nanos: l.1 },
                pickle: row.pickle,
            },
        ),
        _ => None,
    }
}

/// Whether a stored session row decodes; rows this store wrote always do.
pub open spec fn row_decodes() -> spec_fn(SessionRowV) -> bool {
    |r: SessionRowV| session_of_row(r) is Some
}

/// The session a decodable row reconstructs.
pub open spec fn session_value(r: SessionRowV) -> SessionV {
    match session_of_row(r) {
        Some(s) => s,
        None => SessionV {
            session_id: r.session_id,
            sender_key: r.sender_key,
            creation_time: Dur { secs: 0, nanos: 0 },
            last_use_time: Dur { secs: 0, nanos: 0 },
            pickle: r.pickle,
        },
    }
}

/// What a bulk session load returns: the decodable rows, in table order, each
/// reconstructed — a row whose stored timestamps fail to decode is skipped as
/// a recoverable per-row fault and never fails the load.
pub open spec fn decoded_sessions(rows: Seq<SessionRowV>) -> Seq<SessionV> {
    rows.filter(row_decodes()).map_values(|r: SessionRowV| session_value(r))
}

/// The row a session is stored as.
pub open spec fn row_of_session(aid: usize, s: SessionV) -> SessionRowV {
    SessionRowV {
        account_id: aid,
        session_id: s.session_id,
        sender_key: s.sender_key,
        creation_time_json: duration_json(s.creation_time.secs, s.creation_time.nanos),
        last_use_time_json: duration_json(s.last_use_time.secs, s.last_use_time.nanos),
        pickle: s.pickle,
    }
}

/// The session table after a batch save, each session upserted by its id, in
/// batch order.
pub open spec fn saved_session_rows(
    t: Seq<SessionRowV>,
    aid: usize,
    batch: Seq<SessionV>,
) -> Seq<SessionRowV>
    decreases batch.len(),
{
    if batch.len() == 0 {
        t
    } else {
        upsert_where(
            saved_session_rows(t, aid, batch.drop_last()),
            sess_id_is(batch.last().session_id),
            row_of_session(aid, batch.last()),
        )
    }
}

/// What hydrating one sender key for a given account row does: nothing when
/// the key is cached; otherwise its decodable stored sessions are read and a
/// cache entry is recorded exactly when there are any — never an empty one,
/// so a later writer still hydrates.
pub open spec fn hydrate_post(pre: StoreV, post: StoreV, aid: usize, k: Seq<char>) -> bool {
    &&& (has_where(pre.cache, cache_key(k)) ==> post == pre)
    &&& (!has_where(pre.cache, cache_key(k)) ==> {
        let l = decoded_sessions(pre.tables.sessions.filter(sess_for(aid, k)));
        if l.len() == 0 {
            post == pre
        } else {
            post == (StoreV {
                cache: pre.cache.push(CacheEntryV { sender_key: k, sessions: l }),
                ..pre
            })
        }
    })
    &&& pre.cache.is_prefix_of(post.cache)
}

/// What lazily loading one sender key does: hydration behind the account
/// gate, a no-op on a cached key.
pub open spec fn lazy_load_post(
    pre: StoreV,
    post: StoreV,
    k: Seq<char>,
    r: Result<(), StoreError>,
) -> bool {
    &&& (has_where(pre.cache, cache_key(k)) ==> r is Ok && post == pre)
    &&& (!has_where(pre.cache, cache_key(k)) && pre.account_info is None ==> r == Err::<
        (),
        StoreError,
    >(StoreError::AccountUnset) && post == pre)
    &&& (!has_where(pre.cache, cache_key(k)) && pre.account_info is Some ==> r is Ok
        && hydrate_post(pre, post, aid_of(pre), k))
    &&& pre.cache.is_prefix_of(post.cache)
}

/// Reconstruct one session from its row; an error exactly when a stored
/// timestamp fails to decode.
pub fn row_to_session(row: &SessionRow) -> (r: Result<Session, StoreError>)
    ensures
        session_of_row(row@) matches Some(sv) ==> (r matches Ok(s) && s@ == sv),
        session_of_row(row@) is None ==> r == Err::<Session, StoreError>(
            StoreError::SerializationError,
        ),
{
    let ct = duration_from_json(row.creation_time_json.as_str());
    let lt = duration_from_json(row.last_use_time_json.as_str());
    match (ct, lt) {
        (Some(c), Some(l)) => {
            let s = Session {
                session_id: row.session_id.clone(),
                sender_key: row.sender_key.clone(),
                creation_time: Dur { secs: c.0, nanos: c.1 },
                last_use_time: Dur { secs: l.0, nanos: l.1 },
                pickle: row.pickle.clone(),
            };
            proof {
                assert(s@ =~= session_of_row(row@)->0);
            }
            Ok(s)
        },
        _ => Err(StoreError::SerializationError),
    }
}

impl Store {
    /// Store an opaque setting under a key.
    pub fn save_value(&mut self, key: &str, value: &str) -> (r: Result<(), StoreError>)
        ensures
            old(self)@.account_info is None ==> r == Err::<(), StoreError>(
                StoreError::AccountUnset,
            ) && final(self)@ == old(self)@,
            old(self)@.account_info is Some ==> r is Ok && final(self)@ == (StoreV {
                tables: (TablesV {
                    key_values: upsert_where(
                        old(self)@.tables.key_values,
                        kv_key(aid_of(old(self)@), key@),
                        KeyValueRowV {
                            account_id: aid_of(old(self)@),
                            key: key@,
                            value: value@,
                        },
                    ),
                    ..old(self)@.tables
                }),
                ..old(self)@
            }),
    {
        let aid = match self.account_id() {
            Some(aid) => aid,
            None => {
                proof {
                    assert(self@ =~= old(self)@);
                }
                return Err(StoreError::AccountUnset);
            },
        };
        self.tables.upsert_value(aid, key, value);
        proof {
            assert(self@ =~= (StoreV {
                tables: (TablesV {
                    key_values: upsert_where(
                        old(self)@.tables.key_values,
                        kv_key(aid_of(old(self)@), key@),
                        KeyValueRowV {
                            account_id: aid_of(old(self)@),
                            key: key@,
                            value: value@,
                        },
                    ),
                    ..old(self)@.tables
                }),
                ..old(self)@
            }));
        }
        Ok(())
    }

    /// Remove the setting stored under a key, if any.
    pub fn remove_value(&mut self, key: &str) -> (r: Result<(), StoreError>)
        ensures
            old(self)@.account_info is None ==> r == Err::<(), StoreError>(
                StoreError::AccountUnset,
            ) && final(self)@ == old(self)@,
            old(self)@.account_info is Some ==> r is Ok && final(self)@ == (StoreV {
                tables: (TablesV {
                    key_values: remove_where(
                        old(self)@.tables.key_values,
                        kv_key(aid_of(old(self)@), key@),
                    ),
                    ..old(self)@.tables
                }),
                ..old(self)@
            }),
    {
        let aid = match self.account_id() {
            Some(aid) => aid,
            None => {
                proof {
                    assert(self@ =~= old(self)@);
                }
                return Err(StoreError::AccountUnset);
            },
        };
        self.tables.remove_value(aid, key);
        proof {
            assert(self@ =~= (StoreV {
                tables: (TablesV {
                    key_values: remove_where(
                        old(self)@.tables.key_values,
                        kv_key(aid_of(old(self)@), key@),
                    ),
                    ..old(self)@.tables
                }),
                ..old(self)@
            }));
        }
        Ok(())
    }

    /// The setting stored under a key, if any.
    pub fn get_value(&self, key: &str) -> (r: Result<Option<String>, StoreError>)
        ensures
            self@.account_info is None ==> r == Err::<Option<String>, StoreError>(
                StoreError::AccountUnset,
            ),
            self@.account_info is Some ==> ({
                let i = first_where(self@.tables.key_values, kv_key(aid_of(self@), key@));
                if i >= 0 {
                    r matches Ok(o) && o matches Some(v) && v@ == self@.tables.key_values[i].value
                } else {
                    r matches Ok(o) && o is None
                }
            }),
    {
        let aid = match self.account_id() {
            Some(aid) => aid,
            None => {
                return Err(StoreError::AccountUnset);
            },
        };
        Ok(self.tables.get_value(aid, key))
    }

    /// Whether a replay-protection hash was recorded for this account.
    pub fn is_message_known(&self, message_hash: &OlmMessageHash) -> (r: Result<bool, StoreError>)
        ensures
            self@.account_info is None ==> r == Err::<bool, StoreError>(StoreError::AccountUnset),
            self@.account_info is Some ==> r == Ok::<bool, StoreError>(
                has_where(
                    self@.tables.olm_hashes,
                    hash_key(aid_of(self@), message_hash@.sender_key, message_hash@.hash),
                ),
            ),
    {
        let aid = match self.account_id() {
            Some(aid) => aid,
            None => {
                return Err(StoreError::AccountUnset);
            },
        };
        Ok(self.tables.has_hash(aid, message_hash))
    }

    /// Whether this user's device list is followed.
    pub fn is_user_tracked(&self, user_id: &str) -> (r: bool)
        ensures
            r == self@.tracked_set.contains(user_id@),
    {
        dash_contains(&self.tracked_users, user_id)
    }

    /// Whether any tracked user needs a key refresh.
    pub fn has_users_for_key_query(&self) -> (r: bool)
        ensures
            r == (self@.dirty != Set::<Seq<char>>::empty()),
    {
        !dash_is_empty(&self.users_for_key_query)
    }

    /// The tracked users needing a key refresh, each exactly once, in no
    /// fixed order.
    pub fn users_for_key_query(&self) -> (r: Vec<String>)
        ensures
            svs(r@).to_set() == self@.dirty,
            svs(r@).no_duplicates(),
    {
        dash_to_vec(&self.users_for_key_query)
    }

    /// Track a user and set its key-refresh flag, in memory at once and in
    /// the row image behind the account gate; returns whether the user is
    /// newly tracked — the caller's signal to fetch its full device list.
    pub fn update_tracked_user(&mut self, user_id: &str, dirty: bool) -> (r: Result<
        bool,
        StoreError,
    >)
        ensures
            final(self)@.tracked_set == old(self)@.tracked_set.insert(user_id@),
            final(self)@.dirty == if dirty {
                old(self)@.dirty.insert(user_id@)
            } else {
                old(self)@.dirty.remove(user_id@)
            },
            old(self)@.account_info is None ==> r == Err::<bool, StoreError>(
                StoreError::AccountUnset,
            ) && final(self)@ == (StoreV {
                tracked_set: final(self)@.tracked_set,
                dirty: final(self)@.dirty,
                ..old(self)@
            }),
            old(self)@.account_info is Some ==> r == Ok::<bool, StoreError>(
                !old(self)@.tracked_set.contains(user_id@),
            ) && final(self)@ == (StoreV {
                tracked_set: final(self)@.tracked_set,
                dirty: final(self)@.dirty,
                tables: (TablesV {
                    tracked_users: upsert_where(
                        old(self)@.tables.tracked_users,
                        tracked_key(aid_of(old(self)@), user_id@),
                        TrackedUserRowV {
                            account_id: aid_of(old(self)@),
                            user_id: user_id@,
                            dirty,
                        },
                    ),
                    ..old(self)@.tables
                }),
                ..old(self)@
            }),
    {
        let newly = dash_insert(&mut self.tracked_users, user_id.to_owned());
        if dirty {
            dash_insert(&mut self.users_for_key_query, user_id.to_owned());
        } else {
            dash_remove(&mut self.users_for_key_query, user_id);
        }
        let aid = match self.account_id() {
            Some(aid) => aid,
            None => {
                proof {
                    assert(self@ =~= (StoreV {
                        tracked_set: self@.tracked_set,
                        dirty: self@.dirty,
                        ..old(self)@
                    }));
                }
                return Err(StoreError::AccountUnset);
            },
        };
        self.tables.upsert_tracked(aid, user_id, dirty);
        proof {
            assert(self@ =~= (StoreV {
                tracked_set: self@.tracked_set,
                dirty: self@.dirty,
                tables: (TablesV {
                    tracked_users: upsert_where(
                        old(self)@.tables.tracked_users,
                        tracked_key(aid_of(old(self)@), user_id@),
                        TrackedUserRowV {
                            account_id: aid_of(old(self)@),
                            user_id: user_id@,
                            dirty,
                        },
                    ),
                    ..old(self)@.tables
                }),
                ..old(self)@
            }));
        }
        Ok(newly)
    }

    /// Upsert the private cross-signing identity for this account.
    pub fn save_identity(&mut self, identity: &PrivateIdentity) -> (r: Result<(), StoreError>)
        ensures
            old(self)@.account_info is None ==> r == Err::<(), StoreError>(
                StoreError::AccountUnset,
            ) && final(self)@ == old(self)@,
            old(self)@.account_info is Some ==> r is Ok && final(self)@ == (StoreV {
                tables: (TablesV {
                    private_identities: upsert_where(
                        old(self)@.tables.private_identities,
                        priv_key(aid_of(old(self)@), identity@.user_id),
                        PrivateIdentityRowV {
                            account_id: aid_of(old(self)@),
                            identity: identity@,
                        },
                    ),
                    ..old(self)@.tables
                }),
                ..old(self)@
            }),
    {
        let aid = match self.account_id() {
            Some(aid) => aid,
            None => {
                proof {
                    assert(self@ =~= old(self)@);
                }
                return Err(StoreError::AccountUnset);
            },
        };
        self.tables.upsert_private_identity(aid, identity);
        proof {
            assert(self@ =~= (StoreV {
                tables: (TablesV {
                    private_identities: upsert_where(
                        old(self)@.tables.private_identities,
                        priv_key(aid_of(old(self)@), identity@.user_id),
                        PrivateIdentityRowV {
                            account_id: aid_of(old(self)@),
                            identity: identity@,
                        },
                    ),
                    ..old(self)@.tables
                }),
                ..old(self)@
            }));
        }
        Ok(())
    }

    /// Load the private cross-signing identity stored for this account, if
    /// any, under the store's own user id.
    pub fn load_identity(&self) -> (r: Result<Option<PrivateIdentity>, StoreError>)
        ensures
            self@.account_info is None ==> r == Err::<Option<PrivateIdentity>, StoreError>(
                StoreError::AccountUnset,
            ),
            self@.account_info is Some ==> ({
                let i = first_where(self@.tables.private_identities, priv_for(aid_of(self@)));
                if i >= 0 {
                    r matches Ok(o) && o matches Some(v) && v@ == (PrivateIdentityV {
                        user_id: self@.user_id,
                        pickle: self@.tables.private_identities[i].identity.pickle,
                        shared: self@.tables.private_identities[i].identity.shared,
                    })
                } else {
                    r matches Ok(o) && o is None
                }
            }),
    {
        let aid = match self.account_id() {
            Some(aid) => aid,
            None => {
                return Err(StoreError::AccountUnset);
            },
        };
        match self.tables.get_private_identity(aid) {
            Some(p) => Ok(
                Some(
                    PrivateIdentity {
                        user_id: self.user_id.clone(),
                        pickle: p.pickle,
                        shared: p.shared,
                    },
                ),
            ),
            None => Ok(None),
        }
    }

    /// Load and reconstruct all stored sessions of one sender key for this
    /// account, in table order.
    pub fn load_sessions_for(&self, sender_key: &str) -> (r: Result<Vec<Session>, StoreError>)
        ensures
            self@.account_info is None ==> r == Err::<Vec<Session>, StoreError>(
                StoreError::AccountUnset,
            ),
            self@.account_info is Some ==> (r matches Ok(v) && sess_list_v(v@)
                == decoded_sessions(
                self@.tables.sessions.filter(sess_for(aid_of(self@), sender_key@)),
            )),
    {
        let aid = match self.account_id() {
            Some(aid) => aid,
            None => {
                return Err(StoreError::AccountUnset);
            },
        };
        Ok(self.load_sessions_rows(aid, sender_key))
    }

    /// Load and reconstruct the decodable stored sessions of (account,
    /// sender key), in table order; a row with an undecodable timestamp is
    /// skipped as a recoverable per-row fault.
    #[verifier::loop_isolation(false)]
    fn load_sessions_rows(&self, aid: usize, sender_key: &str) -> (r: Vec<Session>)
        ensures
            sess_list_v(r@) == decoded_sessions(
                self@.tables.sessions.filter(sess_for(aid, sender_key@)),
            ),
    {
        let rows = self.tables.sessions_for(aid, sender_key);
        let ghost rowsv = self@.tables.sessions.filter(sess_for(aid, sender_key@));
        let ghost p = row_decodes();
        let mut out: Vec<Session> = Vec::new();
        let mut i: usize = 0;
        let n = rows.len();
        proof {
            assert(rowsv.len() == rows@.len());
        }
        while i < n
            invariant
                n == rows.len(),
                i <= n,
                sess_list_v(out@) == decoded_sessions(rowsv.take(i as int)),
            decreases n - i,
        {
            proof {
                assert(rows@[i as int]@ == rowsv[i as int]);
                crate::seq_find::lemma_filter_take_step(rowsv, p, i as int);
            }
            let ghost preout = sess_list_v(out@);
            match row_to_session(&rows[i]) {
                Ok(s) => {
                    let ghost sv = s@;
                    out.push(s);
                    proof {
                        assert(p(rowsv[i as int]));
                        assert(sv == session_value(rowsv[i as int]));
                        assert(sess_list_v(out@) =~= preout.push(sv));
                        assert(sess_list_v(out@) =~= decoded_sessions(rowsv.take(i as int + 1)));
                    }
                },
                Err(_) => {
                    proof {
                        assert(!p(rowsv[i as int]));
                        assert(sess_list_v(out@) =~= decoded_sessions(rowsv.take(i as int + 1)));
                    }
                },
            }
            i += 1;
        }
        proof {
            crate::seq_find::lemma_take_all(rowsv);
        }
        out
    }

    /// Hydrate the cache entry of one sender key if it is not cached yet: its
    /// stored sessions are loaded and recorded only when there are any — an
    /// empty entry is never recorded, so a later writer still hydrates.
    pub fn lazy_load_sessions(&mut self, sender_key: &str) -> (r: Result<(), StoreError>)
        ensures
            lazy_load_post(old(self)@, final(self)@, sender_key@, r),
    {
        let cached = self.session_cache.find(sender_key);
        proof {
            lemma_first_where(old(self)@.cache, cache_key(sender_key@));
        }
        if cached.is_some() {
            proof {
                assert(self@ =~= old(self)@);
                assert(old(self)@.cache.is_prefix_of(self@.cache));
            }
            return Ok(());
        }
        let aid = match self.account_id() {
            Some(aid) => aid,
            None => {
                proof {
                    assert(self@ =~= old(self)@);
                    assert(old(self)@.cache.is_prefix_of(self@.cache));
                }
                return Err(StoreError::AccountUnset);
            },
        };
        self.hydrate_for(aid, sender_key);
        Ok(())
    }

    /// All sessions cached for a sender key, hydrating the cache first:
    /// `None` when this account has none stored.
    pub fn get_sessions(&mut self, sender_key: &str) -> (r: Result<
        Option<Vec<Session>>,
        StoreError,
    >)
        ensures
            lazy_load_post(
                old(self)@,
                final(self)@,
                sender_key@,
                match r {
                    Ok(_) => Ok(()),
                    Err(e) => Err(e),
                },
            ),
            r matches Ok(o) ==> (match cache_lookup(final(self)@.cache, sender_key@) {
                Some(l) => o matches Some(v) && sess_list_v(v@) == l,
                None => o is None,
            }),
    {
        match self.lazy_load_sessions(sender_key) {
            Ok(()) => {},
            Err(e) => {
                return Err(e);
            },
        }
        Ok(self.session_cache.get_clone(sender_key))
    }

    /// Save a batch of pairwise sessions: each sender key is hydrated from
    /// storage first (so an empty cache never clobbers persisted rows), then
    /// each session is appended or updated in the cache and upserted by its
    /// globally unique id in the row image.
    #[verifier::loop_isolation(false)]
    pub fn save_sessions(&mut self, sessions: &Vec<Session>) -> (r: Result<(), StoreError>)
        requires
            forall|i: int|
                0 <= i < sessions@.len() ==> (#[trigger] sessions@[i]).creation_time.nanos
                    < 1_000_000_000 && sessions@[i].last_use_time.nanos < 1_000_000_000,
        ensures
            old(self)@.account_info is None ==> r == Err::<(), StoreError>(
                StoreError::AccountUnset,
            ) && final(self)@ == old(self)@,
            old(self)@.account_info is Some ==> r is Ok && final(self)@ == (StoreV {
                cache: final(self)@.cache,
                tables: (TablesV {
                    sessions: saved_session_rows(
                        old(self)@.tables.sessions,
                        aid_of(old(self)@),
                        sess_list_v(sessions@),
                    ),
                    ..old(self)@.tables
                }),
                ..old(self)@
            }),
    {
        let aid = match self.account_id() {
            Some(aid) => aid,
            None => {
                proof {
                    assert(self@ =~= old(self)@);
                }
                return Err(StoreError::AccountUnset);
            },
        };
        let ghost batch = sess_list_v(sessions@);
        let mut i: usize = 0;
        let n = sessions.len();
        while i < n
            invariant
                n == sessions.len(),
                i <= n,
                self@ == (StoreV { cache: self@.cache, ..old(self)@ }),
            decreases n - i,
        {
            self.hydrate_for(aid, sessions[i].sender_key.as_str());
            proof {
                assert(self@ =~= (StoreV { cache: self@.cache, ..old(self)@ }));
            }
            i += 1;
        }
        let mut j: usize = 0;
        while j < n
            invariant
                n == sessions.len(),
                j <= n,
                forall|x: int|
                    0 <= x < sessions@.len() ==> (#[trigger] sessions@[x])@.creation_time.nanos
                        < 1_000_000_000 && sessions@[x]@.last_use_time.nanos < 1_000_000_000,
                self@ == (StoreV {
                    cache: self@.cache,
                    tables: (TablesV {
                        sessions: saved_session_rows(
                            old(self)@.tables.sessions,
                            aid,
                            batch.take(j as int),
                        ),
                        ..old(self)@.tables
                    }),
                    ..old(self)@
                }),
                aid == aid_of(old(self)@),
            decreases n - j,
        {
            let ghost pre_rows = self@.tables.sessions;
            proof {
                assert(sessions@[j as int]@ == batch[j as int]);
            }
            self.session_cache.add(&sessions[j]);
            let row = SessionRow {
                account_id: aid,
                session_id: sessions[j].session_id.clone(),
                sender_key: sessions[j].sender_key.clone(),
                creation_time_json: duration_to_json(
                    sessions[j].creation_time.secs,
                    sessions[j].creation_time.nanos,
                ),
                last_use_time_json: duration_to_json(
                    sessions[j].last_use_time.secs,
                    sessions[j].last_use_time.nanos,
                ),
                pickle: sessions[j].pickle.clone(),
            };
            proof {
                assert(row@ =~= row_of_session(aid, batch[j as int]));
            }
            self.tables.upsert_session_row(row);
            proof {
                assert(batch.take(j as int + 1).drop_last() =~= batch.take(j as int));
                assert(batch.take(j as int + 1).last() == batch[j as int]);
                assert(self@.tables.sessions == saved_session_rows(
                    old(self)@.tables.sessions,
                    aid,
                    batch.take(j as int + 1),
                ));
                assert(self@ =~= (StoreV {
                    cache: self@.cache,
                    tables: (TablesV {
                        sessions: saved_session_rows(
                            old(self)@.tables.sessions,
                            aid,
                            batch.take(j as int + 1),
                        ),
                        ..old(self)@.tables
                    }),
                    ..old(self)@
                }));
            }
            j += 1;
        }
        proof {
            assert(batch.take(batch.len() as int) =~= batch);
        }
        Ok(())
    }
}


/// View of a list of devices.
pub open spec fn dev_list_v(s: Seq<Device>) -> Seq<DeviceV> {
    s.map_values(|d: Device| d@)
}

/// View of a list of group sessions.
pub open spec fn group_list_v(s: Seq<InboundGroupSession>) -> Seq<InboundGroupSessionV> {
    s.map_values(|x: InboundGroupSession| x@)
}

/// Whether a stored group session carries a well-formed room id.
pub open spec fn room_ok() -> spec_fn(InboundGroupSessionV) -> bool {
    |s: InboundGroupSessionV| room_id_ok(s.room_id)
}

/// Whether a stored signature row carries a well-formed signer id.
pub open spec fn sig_ok() -> spec_fn((Seq<char>, Seq<char>, Seq<char>)) -> bool {
    |t: (Seq<char>, Seq<char>, Seq<char>)| user_id_ok(t.0)
}

/// A device as handed out: as stored, with signature rows whose signer id is
/// malformed skipped as recoverable per-row faults.
pub open spec fn device_loaded(d: DeviceV) -> DeviceV {
    DeviceV { signatures: d.signatures.filter(sig_ok()), ..d }
}

/// The string list a stored JSON text canonically encodes, if any.
pub open spec fn strings_of_json(s: Seq<char>) -> Option<Seq<Seq<char>>> {
    if exists|l: Seq<Seq<char>>| s == string_list_json(l) {
        Some(choose|l: Seq<Seq<char>>| s == string_list_json(l))
    } else {
        None
    }
}

/// The cross-signing key a stored row reconstructs for a user, when its
/// usage list is canonical.
pub open spec fn csk_of_row(u: Seq<char>, row: CrossSigningKeyRowV) -> Option<CrossSigningKeyV> {
    match strings_of_json(row.usage_json) {
        Some(us) => Some(
            CrossSigningKeyV {
                user_id: u,
                usage: us,
                keys: row.keys,
                signatures: row.signatures,
            },
        ),
        None => None,
    }
}

/// Keep only the signature rows with a well-formed signer id.
#[verifier::loop_isolation(false)]
pub fn filter_signatures(v: &Vec<(String, String, String)>) -> (r: Vec<(String, String, String)>)
    ensures
        stv(r@) == stv(v@).filter(sig_ok()),
{
    let ghost p = sig_ok();
    let ghost vv = stv(v@);
    let mut r: Vec<(String, String, String)> = Vec::new();
    let mut i: usize = 0;
    let n = v.len();
    proof {
        assert(vv.len() == v@.len());
    }
    while i < n
        invariant
            n == v.len(),
            i <= n,
            stv(r@) == vv.take(i as int).filter(p),
        decreases n - i,
    {
        proof {
            crate::seq_find::lemma_filter_take_step(vv, p, i as int);
            assert(vv[i as int] == (v@[i as int].0@, v@[i as int].1@, v@[i as int].2@));
        }
        if user_id_valid(v[i].0.as_str()) {
            proof {
                assert(p(vv[i as int]));
            }
            let ghost pre = stv(r@);
            let t = (v[i].0.clone(), v[i].1.clone(), v[i].2.clone());
            r.push(t);
            proof {
                assert(stv(r@) =~= pre.push(vv[i as int]));
            }
        } else {
            proof {
                assert(!p(vv[i as int]));
            }
        }
        i += 1;
    }
    proof {
        crate::seq_find::lemma_take_all(vv);
    }
    r
}

/// A stored device prepared for handing out.
pub fn load_device(d: &Device) -> (r: Device)
    ensures
        r@ == device_loaded(d@),
{
    let r = Device {
        user_id: d.user_id.clone(),
        device_id: d.device_id.clone(),
        display_name: crate::records::clone_opt_string(&d.display_name),
        trust_state: d.trust_state,
        algorithms: clone_strings(&d.algorithms),
        keys: clone_pairs(&d.keys),
        signatures: filter_signatures(&d.signatures),
    };
    proof {
        assert(r@ =~= device_loaded(d@));
    }
    r
}

/// Reconstruct one cross-signing key from its row for a user;
/// `SerializationError` when the stored usage list cannot be decoded.
pub fn load_csk(user_id: &str, row: &CrossSigningKeyRow) -> (r: Result<
    CrossSigningKey,
    StoreError,
>)
    ensures
        csk_of_row(user_id@, row@) matches Some(kv) ==> (r matches Ok(k) && k@ == kv),
        r matches Ok(k) ==> k@.user_id == user_id@ && k@.keys == row@.keys && k@.signatures
            == row@.signatures,
        r matches Err(e) ==> e == StoreError::SerializationError,
{
    match string_list_from_json(row.usage_json.as_str()) {
        Some(us) => {
            let k = CrossSigningKey {
                user_id: user_id.to_owned(),
                usage: us,
                keys: clone_pairs(&row.keys),
                signatures: clone_triples(&row.signatures),
            };
            proof {
                if csk_of_row(user_id@, row@) is Some {
                    let l0 = choose|l: Seq<Seq<char>>| row@.usage_json == string_list_json(l);
                    assert(svs(us@) == l0);
                    assert(k@ =~= csk_of_row(user_id@, row@)->0);
                }
            }
            Ok(k)
        },
        None => Err(StoreError::SerializationError),
    }
}

impl Store {
    /// The stored device of (user, device), if any: as saved, with
    /// malformed-signer signature rows skipped.
    pub fn get_device(&self, user_id: &str, device_id: &str) -> (r: Result<
        Option<Device>,
        StoreError,
    >)
        ensures
            self@.account_info is None ==> r == Err::<Option<Device>, StoreError>(
                StoreError::AccountUnset,
            ),
            self@.account_info is Some ==> (match found_device(
                self@.tables,
                aid_of(self@),
                user_id@,
                device_id@,
            ) {
                Some(dv) => r matches Ok(o) && (o matches Some(v) && v@ == device_loaded(dv)),
                None => r matches Ok(o) && o is None,
            }),
    {
        let aid = match self.account_id() {
            Some(aid) => aid,
            None => {
                return Err(StoreError::AccountUnset);
            },
        };
        match self.tables.find_device(aid, user_id, device_id) {
            Some(d) => Ok(Some(load_device(&d))),
            None => Ok(None),
        }
    }

    /// All stored devices of a user, in table order, each prepared as in
    /// [`Store::get_device`].
    #[verifier::loop_isolation(false)]
    pub fn get_user_devices(&self, user_id: &str) -> (r: Result<Vec<Device>, StoreError>)
        ensures
            self@.account_info is None ==> r == Err::<Vec<Device>, StoreError>(
                StoreError::AccountUnset,
            ),
            self@.account_info is Some ==> (r matches Ok(v) && dev_list_v(v@)
                == self@.tables.devices.filter(device_for(aid_of(self@), user_id@)).map_values(
                |row: DeviceRowV| device_loaded(row.device),
            )),
    {
        let aid = match self.account_id() {
            Some(aid) => aid,
            None => {
                return Err(StoreError::AccountUnset);
            },
        };
        let stored = self.tables.devices_for_user(aid, user_id);
        let ghost rowsv = self@.tables.devices.filter(device_for(aid_of(self@), user_id@));
        let mut out: Vec<Device> = Vec::new();
        let mut i: usize = 0;
        let n = stored.len();
        proof {
            assert(dev_list_v(stored@).len() == stored@.len());
        }
        while i < n
            invariant
                n == stored.len(),
                i <= n,
                out@.len() == i,
                forall|j: int|
                    0 <= j < i ==> #[trigger] dev_list_v(out@)[j] == device_loaded(
                        rowsv[j].device,
                    ),
            decreases n - i,
        {
            proof {
                assert(dev_list_v(stored@)[i as int] == stored@[i as int]@);
                assert(stored@[i as int]@ == rowsv.map_values(
                    |row: DeviceRowV| row.device,
                )[i as int]);
            }
            let ghost preout = dev_list_v(out@);
            let d = load_device(&stored[i]);
            let ghost dv = d@;
            out.push(d);
            proof {
                assert(dev_list_v(out@) =~= preout.push(dv));
            }
            i += 1;
        }
        proof {
            assert(dev_list_v(out@) =~= rowsv.map_values(
                |row: DeviceRowV| device_loaded(row.device),
            ));
        }
        Ok(out)
    }

    /// The stored group session of (room, sender key, session id), if any;
    /// a row under another room is not returned.
    pub fn get_inbound_group_session(
        &self,
        room_id: &str,
        sender_key: &str,
        session_id: &str,
    ) -> (r: Result<Option<InboundGroupSession>, StoreError>)
        ensures
            self@.account_info is None ==> r == Err::<Option<InboundGroupSession>, StoreError>(
                StoreError::AccountUnset,
            ),
            self@.account_info is Some ==> (match found_group(
                self@.tables,
                aid_of(self@),
                session_id@,
                sender_key@,
            ) {
                Some(sv) => if sv.room_id == room_id@ {
                    r matches Ok(o) && (o matches Some(v) && v@ == sv)
                } else {
                    r matches Ok(o) && o is None
                },
                None => r matches Ok(o) && o is None,
            }),
    {
        let aid = match self.account_id() {
            Some(aid) => aid,
            None => {
                return Err(StoreError::AccountUnset);
            },
        };
        Ok(self.tables.find_group_session(aid, room_id, sender_key, session_id))
    }

    /// All stored group sessions of this account, in table order; a row
    /// whose stored room id fails to parse is skipped as a recoverable
    /// per-row fault and never fails the load.
    #[verifier::loop_isolation(false)]
    pub fn get_inbound_group_sessions(&self) -> (r: Result<Vec<InboundGroupSession>, StoreError>)
        ensures
            self@.account_info is None ==> r == Err::<Vec<InboundGroupSession>, StoreError>(
                StoreError::AccountUnset,
            ),
            self@.account_info is Some ==> (r matches Ok(v) && group_list_v(v@)
                == self@.tables.group_sessions.filter(group_for(aid_of(self@))).map_values(
                |row: GroupSessionRowV| row.session,
            ).filter(room_ok())),
    {
        let aid = match self.account_id() {
            Some(aid) => aid,
            None => {
                return Err(StoreError::AccountUnset);
            },
        };
        let stored = self.tables.group_sessions_for_account(aid);
        let ghost l = self@.tables.group_sessions.filter(group_for(aid_of(self@))).map_values(
            |row: GroupSessionRowV| row.session,
        );
        let ghost p = room_ok();
        let mut out: Vec<InboundGroupSession> = Vec::new();
        let mut i: usize = 0;
        let n = stored.len();
        proof {
            assert(group_list_v(stored@).len() == stored@.len());
        }
        while i < n
            invariant
                n == stored.len(),
                i <= n,
                group_list_v(out@) == l.take(i as int).filter(p),
            decreases n - i,
        {
            proof {
                assert(group_list_v(stored@)[i as int] == stored@[i as int]@);
                assert(stored@[i as int]@ == l[i as int]);
                crate::seq_find::lemma_filter_take_step(l, p, i as int);
            }
            if room_id_valid(stored[i].room_id.as_str()) {
                proof {
                    assert(p(l[i as int]));
                }
                let ghost preout = group_list_v(out@);
                let g = stored[i].clone();
                let ghost gv = g@;
                out.push(g);
                proof {
                    assert(group_list_v(out@) =~= preout.push(gv));
                }
            } else {
                proof {
                    assert(!p(l[i as int]));
                }
            }
            i += 1;
        }
        proof {
            crate::seq_find::lemma_take_all(l);
        }
        Ok(out)
    }

    /// The stored cross-signing identity of a user, if any: the local user's
    /// own identity carries all three key types and the trust flag (default
    /// untrusted), another user's carries master and self-signing.  A row set
    /// without the user-signing key for the local user is a data-integrity
    /// fault, surfaced as `InconsistentIdentity`, never silently returned.
    pub fn get_user_identity(&self, user_id: &str) -> (r: Result<
        Option<UserIdentities>,
        StoreError,
    >)
        ensures
            self@.account_info is None ==> r == Err::<Option<UserIdentities>, StoreError>(
                StoreError::AccountUnset,
            ),
            self@.account_info is Some ==> (match found_user(
                self@.tables,
                aid_of(self@),
                user_id@,
            ) {
                Some(row) => {
                    if user_id@ == self@.user_id {
                        &&& (r matches Err(e) ==> e == StoreError::SerializationError || (e
                            == StoreError::InconsistentIdentity && row.user_signing_key is None))
                        &&& ((csk_of_row(user_id@, row.master_key) is Some && csk_of_row(
                            user_id@,
                            row.self_signing_key,
                        ) is Some && row.user_signing_key is None) ==> r == Err::<
                            Option<UserIdentities>,
                            StoreError,
                        >(StoreError::InconsistentIdentity))
                        &&& (row.user_signing_key matches Some(usk) ==> {
                            &&& (csk_of_row(user_id@, row.master_key) matches Some(mk) ==> (
                            csk_of_row(user_id@, row.self_signing_key) matches Some(sk) ==> (
                            csk_of_row(user_id@, usk) matches Some(uk) ==> (r matches Ok(o) && (
                            o matches Some(v) && v@ == UserIdentitiesV::Own(
                                OwnIdentityV {
                                    user_id: user_id@,
                                    master_key: mk,
                                    self_signing_key: sk,
                                    user_signing_key: uk,
                                    verified: row.trusted == Some(true),
                                },
                            ))))))
                        })
                    } else {
                        &&& (csk_of_row(user_id@, row.master_key) matches Some(mk) ==> (
                        csk_of_row(user_id@, row.self_signing_key) matches Some(sk) ==> (
                        r matches Ok(o) && (o matches Some(v) && v@ == UserIdentitiesV::Other(
                            OtherIdentityV {
                                user_id: user_id@,
                                master_key: mk,
                                self_signing_key: sk,
                            },
                        )))))
                        &&& (r matches Err(e) ==> e == StoreError::SerializationError)
                    }
                },
                None => r matches Ok(o) && o is None,
            }),
    {
        let aid = match self.account_id() {
            Some(aid) => aid,
            None => {
                return Err(StoreError::AccountUnset);
            },
        };
        let row = match self.tables.find_user_row(aid, user_id) {
            Some(row) => row,
            None => {
                return Ok(None);
            },
        };
        let master_key = match load_csk(user_id, &row.master_key) {
            Ok(k) => k,
            Err(e) => {
                return Err(e);
            },
        };
        let self_signing_key = match load_csk(user_id, &row.self_signing_key) {
            Ok(k) => k,
            Err(e) => {
                return Err(e);
            },
        };
        if str_eq(user_id, self.user_id.as_str()) {
            let usk_row = match &row.user_signing_key {
                Some(k) => k,
                None => {
                    return Err(StoreError::InconsistentIdentity);
                },
            };
            let user_signing_key = match load_csk(user_id, usk_row) {
                Ok(k) => k,
                Err(e) => {
                    return Err(e);
                },
            };
            let verified = match row.trusted {
                Some(b) => b,
                None => false,
            };
            Ok(
                Some(
                    UserIdentities::Own(
                        OwnIdentity {
                            user_id: user_id.to_owned(),
                            master_key,
                            self_signing_key,
                            user_signing_key,
                            verified,
                        },
                    ),
                ),
            )
        } else {
            Ok(
                Some(
                    UserIdentities::Other(
                        OtherIdentity { user_id: user_id.to_owned(), master_key, self_signing_key },
                    ),
                ),
            )
        }
    }
}


/// The group-session table after a batch save, in batch order, each child
/// list growing additively over what the batch itself accumulated.
pub open spec fn saved_group_rows(
    t: Seq<GroupSessionRowV>,
    aid: usize,
    batch: Seq<InboundGroupSessionV>,
) -> Seq<GroupSessionRowV>
    decreases batch.len(),
{
    if batch.len() == 0 {
        t
    } else {
        let pre = saved_group_rows(t, aid, batch.drop_last());
        let g = batch.last();
        upsert_where(
            pre,
            group_key(aid, g.session_id, g.sender_key),
            GroupSessionRowV {
                account_id: aid,
                session: group_saved(found_group_in(pre, aid, g.session_id, g.sender_key), g),
            },
        )
    }
}

/// The device table after a batch save, in batch order.
pub open spec fn saved_device_rows(
    t: Seq<DeviceRowV>,
    aid: usize,
    batch: Seq<DeviceV>,
) -> Seq<DeviceRowV>
    decreases batch.len(),
{
    if batch.len() == 0 {
        t
    } else {
        let pre = saved_device_rows(t, aid, batch.drop_last());
        let d = batch.last();
        upsert_where(
            pre,
            device_key(aid, d.user_id, d.device_id),
            DeviceRowV {
                account_id: aid,
                device: device_saved(found_device_in(pre, aid, d.user_id, d.device_id), d),
            },
        )
    }
}

/// The device table after a batch delete, in batch order.
pub open spec fn deleted_device_rows(
    t: Seq<DeviceRowV>,
    aid: usize,
    batch: Seq<DeviceV>,
) -> Seq<DeviceRowV>
    decreases batch.len(),
{
    if batch.len() == 0 {
        t
    } else {
        remove_where(
            deleted_device_rows(t, aid, batch.drop_last()),
            device_key(aid, batch.last().user_id, batch.last().device_id),
        )
    }
}

/// The user table after a batch identity save, in batch order.
pub open spec fn saved_user_rows(
    t: Seq<UserRowV>,
    aid: usize,
    batch: Seq<UserIdentitiesV>,
) -> Seq<UserRowV>
    decreases batch.len(),
{
    if batch.len() == 0 {
        t
    } else {
        let pre = saved_user_rows(t, aid, batch.drop_last());
        let ident = batch.last();
        upsert_where(
            pre,
            user_key(aid, crate::records::idv_user(ident)),
            user_row_saved(found_user_in(pre, aid, crate::records::idv_user(ident)), aid, ident),
        )
    }
}

/// The replay-hash table after a batch record, in batch order, each hash
/// recorded once.
pub open spec fn saved_hash_rows(
    t: Seq<OlmHashRowV>,
    aid: usize,
    batch: Seq<OlmMessageHashV>,
) -> Seq<OlmHashRowV>
    decreases batch.len(),
{
    if batch.len() == 0 {
        t
    } else {
        let pre = saved_hash_rows(t, aid, batch.drop_last());
        let h = batch.last();
        if has_where(pre, hash_key(aid, h.sender_key, h.hash)) {
            pre
        } else {
            pre.push(OlmHashRowV { account_id: aid, sender_key: h.sender_key, hash: h.hash })
        }
    }
}

/// The account table after the changeset's account upsert, if it carries one.
pub open spec fn acct_applied_tables(t: TablesV, c: ChangesV) -> TablesV {
    match c.account {
        Some(a) => TablesV {
            accounts: upsert_where(t.accounts, acct_key(a.user_id, a.device_id), a),
            ..t
        },
        None => t,
    }
}

/// The account-info snapshot all changeset steps share.
pub open spec fn changes_aid(pre: StoreV, c: ChangesV) -> usize {
    match c.account {
        Some(a) => saved_account_idx(pre.tables, a),
        None => aid_of(pre),
    }
}

/// The cached account info after a changeset.
pub open spec fn changes_info(pre: StoreV, c: ChangesV) -> Option<AccountInfoV> {
    match c.account {
        Some(a) => Some(
            AccountInfoV {
                account_id: saved_account_idx(pre.tables, a),
                identity_keys: a.identity_keys,
            },
        ),
        None => pre.account_info,
    }
}

/// The row image after a changeset is applied to `t` (the image after the
/// account upsert), in the fixed order: private identity, sessions, group
/// sessions, new devices, changed devices, deleted devices, new identities,
/// changed identities, replay hashes.
pub open spec fn apply_changes_tables(t: TablesV, aid: usize, c: ChangesV) -> TablesV {
    let t1 = match c.private_identity {
        Some(p) => TablesV {
            private_identities: upsert_where(
                t.private_identities,
                priv_key(aid, p.user_id),
                PrivateIdentityRowV { account_id: aid, identity: p },
            ),
            ..t
        },
        None => t,
    };
    let t2 = TablesV { sessions: saved_session_rows(t1.sessions, aid, c.sessions), ..t1 };
    let t3 = TablesV {
        group_sessions: saved_group_rows(t2.group_sessions, aid, c.inbound_group_sessions),
        ..t2
    };
    let t4 = TablesV { devices: saved_device_rows(t3.devices, aid, c.devices.new), ..t3 };
    let t5 = TablesV { devices: saved_device_rows(t4.devices, aid, c.devices.changed), ..t4 };
    let t6 = TablesV { devices: deleted_device_rows(t5.devices, aid, c.devices.deleted), ..t5 };
    let t7 = TablesV { users: saved_user_rows(t6.users, aid, c.identities.new), ..t6 };
    let t8 = TablesV { users: saved_user_rows(t7.users, aid, c.identities.changed), ..t7 };
    TablesV { olm_hashes: saved_hash_rows(t8.olm_hashes, aid, c.message_hashes), ..t8 }
}

impl Store {
    /// Hydrate the cache entry of one sender key for a given account row, if
    /// it is not cached yet; cannot fail, an undecodable row is skipped.
    fn hydrate_for(&mut self, aid: usize, sender_key: &str)
        ensures
            hydrate_post(old(self)@, final(self)@, aid, sender_key@),
    {
        let cached = self.session_cache.find(sender_key);
        proof {
            lemma_first_where(old(self)@.cache, cache_key(sender_key@));
        }
        if cached.is_some() {
            proof {
                assert(self@ =~= old(self)@);
                assert(old(self)@.cache.is_prefix_of(self@.cache));
            }
            return ;
        }
        proof {
            assert(!has_where(old(self)@.cache, cache_key(sender_key@))) by {
                if has_where(old(self)@.cache, cache_key(sender_key@)) {
                    let j = choose|j: int|
                        0 <= j < old(self)@.cache.len() && cache_key(sender_key@)(
                            old(self)@.cache[j],
                        );
                }
            }
        }
        let loaded = self.load_sessions_rows(aid, sender_key);
        if loaded.len() > 0 {
            let ghost lv = sess_list_v(loaded@);
            self.session_cache.set_for_sender(sender_key, loaded);
            proof {
                lemma_first_where_none(old(self)@.cache, cache_key(sender_key@));
                assert(self@.cache =~= old(self)@.cache.push(
                    CacheEntryV { sender_key: sender_key@, sessions: lv },
                ));
                assert(self@ =~= (StoreV {
                    cache: old(self)@.cache.push(
                        CacheEntryV { sender_key: sender_key@, sessions: lv },
                    ),
                    ..old(self)@
                }));
                assert(old(self)@.cache.is_prefix_of(self@.cache)) by {
                    assert(self@.cache.take(old(self)@.cache.len() as int) =~= old(self)@.cache);
                }
            }
        } else {
            proof {
                assert(self@ =~= old(self)@);
                assert(old(self)@.cache.is_prefix_of(self@.cache));
            }
        }
    }

    /// Apply one heterogeneous changeset as a unit, in the fixed order of
    /// [`apply_changes_tables`], against one account snapshot taken before
    /// any step runs.  Either every step's rows land or none do: the only
    /// check that can fail — the account gate — runs before the row image is
    /// touched, so a failed changeset leaves the rows and the cached account
    /// info as they were; partial application is never observable.
    #[verifier::loop_isolation(false)]
    #[verifier::rlimit(100)]
    pub fn save_changes(&mut self, changes: Changes) -> (r: Result<(), StoreError>)
        requires
            changes@.account matches Some(a) ==> a.user_id == old(self)@.user_id && a.device_id
                == old(self)@.device_id,
            forall|i: int|
                0 <= i < changes@.sessions.len() ==> (#[trigger] changes@.sessions[i])
                    .creation_time.nanos < 1_000_000_000 && changes@.sessions[i].last_use_time
                    .nanos < 1_000_000_000,
        ensures
            (changes@.account is None && old(self)@.account_info is None) ==> r == Err::<
                (),
                StoreError,
            >(StoreError::AccountUnset) && final(self)@ == old(self)@,
            (changes@.account is Some || old(self)@.account_info is Some) ==> r is Ok
                && final(self)@ == (StoreV {
                cache: final(self)@.cache,
                account_info: changes_info(old(self)@, changes@),
                tables: apply_changes_tables(
                    acct_applied_tables(old(self)@.tables, changes@),
                    changes_aid(old(self)@, changes@),
                    changes@,
                ),
                ..old(self)@
            }),
    {
        let ghost cv = changes@;
        // One account snapshot for every step: the row the changeset's own
        // account will land in, or the cached one.
        let aid: usize = match &changes.account {
            Some(a) => {
                match self.tables.find_account(a.user_id.as_str(), a.device_id.as_str()) {
                    Some(i) => i,
                    None => {
                        proof {
                            lemma_first_where(
                                old(self)@.tables.accounts,
                                acct_key(a@.user_id, a@.device_id),
                            );
                        }
                        self.tables.accounts.len()
                    },
                }
            },
            None => {
                match self.account_id() {
                    Some(x) => x,
                    None => {
                        proof {
                            assert(self@ =~= old(self)@);
                        }
                        return Err(StoreError::AccountUnset);
                    },
                }
            },
        };
        proof {
            assert(aid == changes_aid(old(self)@, cv));
        }
        // Hydrate every touched sender key first: this reads rows and fills
        // the in-memory cache only, so the row image is still untouched when
        // the batch starts to apply.
        let ghost batch = cv.sessions;
        let mut i: usize = 0;
        let n = changes.sessions.len();
        while i < n
            invariant
                n == changes.sessions.len(),
                i <= n,
                self@ == (StoreV { cache: self@.cache, ..old(self)@ }),
            decreases n - i,
        {
            self.hydrate_for(aid, changes.sessions[i].sender_key.as_str());
            proof {
                assert(self@ =~= (StoreV { cache: self@.cache, ..old(self)@ }));
            }
            i += 1;
        }
        // Apply phase: nothing below can fail.
        let Changes {
            account,
            private_identity,
            sessions,
            inbound_group_sessions,
            devices,
            identities,
            message_hashes,
        } = changes;
        let crate::records::DeviceChanges { new: dev_new, changed: dev_changed, deleted: dev_deleted } =
            devices;
        let crate::records::IdentityChanges { new: id_new, changed: id_changed } = identities;
        if let Some(a) = account {
            let keys = a.identity_keys.clone();
            let idx = self.tables.upsert_account(a);
            self.account_info = Some(AccountInfo { account_id: idx, identity_keys: keys });
            proof {
                assert(idx == aid);
            }
        }
        let ghost s_acct = self@;
        proof {
            assert(s_acct == (StoreV {
                cache: s_acct.cache,
                account_info: changes_info(old(self)@, cv),
                tables: acct_applied_tables(old(self)@.tables, cv),
                ..old(self)@
            }));
        }
        if let Some(p) = private_identity {
            self.tables.upsert_private_identity(aid, &p);
        }
        let ghost t1 = self@.tables;
        let ghost base1 = self@;
        let mut i: usize = 0;
        let n = sessions.len();
        while i < n
            invariant
                n == sessions.len(),
                i <= n,
                forall|x: int|
                    0 <= x < batch.len() ==> (#[trigger] batch[x]).creation_time.nanos
                        < 1_000_000_000 && batch[x].last_use_time.nanos < 1_000_000_000,
                sess_list_v(sessions@) == batch,
                self@ == (StoreV {
                    cache: self@.cache,
                    tables: (TablesV {
                        sessions: saved_session_rows(t1.sessions, aid, batch.take(i as int)),
                        ..t1
                    }),
                    ..base1
                }),
            decreases n - i,
        {
            proof {
                assert(sessions@[i as int]@ == batch[i as int]);
            }
            self.session_cache.add(&sessions[i]);
            let row = SessionRow {
                account_id: aid,
                session_id: sessions[i].session_id.clone(),
                sender_key: sessions[i].sender_key.clone(),
                creation_time_json: duration_to_json(
                    sessions[i].creation_time.secs,
                    sessions[i].creation_time.nanos,
                ),
                last_use_time_json: duration_to_json(
                    sessions[i].last_use_time.secs,
                    sessions[i].last_use_time.nanos,
                ),
                pickle: sessions[i].pickle.clone(),
            };
            proof {
                assert(row@ =~= row_of_session(aid, batch[i as int]));
            }
            self.tables.upsert_session_row(row);
            proof {
                assert(batch.take(i as int + 1).drop_last() =~= batch.take(i as int));
                assert(batch.take(i as int + 1).last() == batch[i as int]);
                assert(self@ =~= (StoreV {
                    cache: self@.cache,
                    tables: (TablesV {
                        sessions: saved_session_rows(t1.sessions, aid, batch.take(i as int + 1)),
                        ..t1
                    }),
                    ..base1
                }));
            }
            i += 1;
        }
        proof {
            assert(batch.take(batch.len() as int) =~= batch);
        }
        let ghost base2 = self@;
        let ghost gbatch = cv.inbound_group_sessions;
        let mut i: usize = 0;
        let n = inbound_group_sessions.len();
        while i < n
            invariant
                n == inbound_group_sessions.len(),
                i <= n,
                group_list_v(inbound_group_sessions@) == gbatch,
                self@ == (StoreV {
                    tables: (TablesV {
                        group_sessions: saved_group_rows(
                            base2.tables.group_sessions,
                            aid,
                            gbatch.take(i as int),
                        ),
                        ..base2.tables
                    }),
                    ..base2
                }),
            decreases n - i,
        {
            proof {
                assert(inbound_group_sessions@[i as int]@ == gbatch[i as int]);
            }
            self.tables.upsert_group_session(aid, &inbound_group_sessions[i]);
            proof {
                assert(gbatch.take(i as int + 1).drop_last() =~= gbatch.take(i as int));
                assert(gbatch.take(i as int + 1).last() == gbatch[i as int]);
                assert(self@ =~= (StoreV {
                    tables: (TablesV {
                        group_sessions: saved_group_rows(
                            base2.tables.group_sessions,
                            aid,
                            gbatch.take(i as int + 1),
                        ),
                        ..base2.tables
                    }),
                    ..base2
                }));
            }
            i += 1;
        }
        proof {
            assert(gbatch.take(gbatch.len() as int) =~= gbatch);
        }
        let ghost base3 = self@;
        let ghost dn = cv.devices.new;
        let mut i: usize = 0;
        let n = dev_new.len();
        while i < n
            invariant
                n == dev_new.len(),
                i <= n,
                dev_list_v(dev_new@) == dn,
                self@ == (StoreV {
                    tables: (TablesV {
                        devices: saved_device_rows(base3.tables.devices, aid, dn.take(i as int)),
                        ..base3.tables
                    }),
                    ..base3
                }),
            decreases n - i,
        {
            proof {
                assert(dev_new@[i as int]@ == dn[i as int]);
            }
            self.tables.upsert_device(aid, &dev_new[i]);
            proof {
                assert(dn.take(i as int + 1).drop_last() =~= dn.take(i as int));
                assert(dn.take(i as int + 1).last() == dn[i as int]);
                assert(self@ =~= (StoreV {
                    tables: (TablesV {
                        devices: saved_device_rows(
                            base3.tables.devices,
                            aid,
                            dn.take(i as int + 1),
                        ),
                        ..base3.tables
                    }),
                    ..base3
                }));
            }
            i += 1;
        }
        proof {
            assert(dn.take(dn.len() as int) =~= dn);
        }
        let ghost base4 = self@;
        let ghost dc = cv.devices.changed;
        let mut i: usize = 0;
        let n = dev_changed.len();
        while i < n
            invariant
                n == dev_changed.len(),
                i <= n,
                dev_list_v(dev_changed@) == dc,
                self@ == (StoreV {
                    tables: (TablesV {
                        devices: saved_device_rows(base4.tables.devices, aid, dc.take(i as int)),
                        ..base4.tables
                    }),
                    ..base4
                }),
            decreases n - i,
        {
            proof {
                assert(dev_changed@[i as int]@ == dc[i as int]);
            }
            self.tables.upsert_device(aid, &dev_changed[i]);
            proof {
                assert(dc.take(i as int + 1).drop_last() =~= dc.take(i as int));
                assert(dc.take(i as int + 1).last() == dc[i as int]);
                assert(self@ =~= (StoreV {
                    tables: (TablesV {
                        devices: saved_device_rows(
                            base4.tables.devices,
                            aid,
                            dc.take(i as int + 1),
                        ),
                        ..base4.tables
                    }),
                    ..base4
                }));
            }
            i += 1;
        }
        proof {
            assert(dc.take(dc.len() as int) =~= dc);
        }
        let ghost base5 = self@;
        let ghost dd = cv.devices.deleted;
        let mut i: usize = 0;
        let n = dev_deleted.len();
        while i < n
            invariant
                n == dev_deleted.len(),
                i <= n,
                dev_list_v(dev_deleted@) == dd,
                self@ == (StoreV {
                    tables: (TablesV {
                        devices: deleted_device_rows(base5.tables.devices, aid, dd.take(i as int)),
                        ..base5.tables
                    }),
                    ..base5
                }),
            decreases n - i,
        {
            proof {
                assert(dev_deleted@[i as int]@ == dd[i as int]);
            }
            self.tables.delete_device_rows(
                aid,
                dev_deleted[i].user_id.as_str(),
                dev_deleted[i].device_id.as_str(),
            );
            proof {
                assert(dd.take(i as int + 1).drop_last() =~= dd.take(i as int));
                assert(dd.take(i as int + 1).last() == dd[i as int]);
                assert(self@ =~= (StoreV {
                    tables: (TablesV {
                        devices: deleted_device_rows(
                            base5.tables.devices,
                            aid,
                            dd.take(i as int + 1),
                        ),
                        ..base5.tables
                    }),
                    ..base5
                }));
            }
            i += 1;
        }
        proof {
            assert(dd.take(dd.len() as int) =~= dd);
        }
        let ghost base6 = self@;
        let ghost idn = cv.identities.new;
        let mut i: usize = 0;
        let n = id_new.len();
        while i < n
            invariant
                n == id_new.len(),
                i <= n,
                id_new@.map_values(|x: UserIdentities| x@) == idn,
                self@ == (StoreV {
                    tables: (TablesV {
                        users: saved_user_rows(base6.tables.users, aid, idn.take(i as int)),
                        ..base6.tables
                    }),
                    ..base6
                }),
            decreases n - i,
        {
            proof {
                assert(id_new@[i as int]@ == idn[i as int]);
            }
            self.tables.upsert_user(aid, &id_new[i]);
            proof {
                assert(idn.take(i as int + 1).drop_last() =~= idn.take(i as int));
                assert(idn.take(i as int + 1).last() == idn[i as int]);
                assert(self@ =~= (StoreV {
                    tables: (TablesV {
                        users: saved_user_rows(base6.tables.users, aid, idn.take(i as int + 1)),
                        ..base6.tables
                    }),
                    ..base6
                }));
            }
            i += 1;
        }
        proof {
            assert(idn.take(idn.len() as int) =~= idn);
        }
        let ghost base7 = self@;
        let ghost idc = cv.identities.changed;
        let mut i: usize = 0;
        let n = id_changed.len();
        while i < n
            invariant
                n == id_changed.len(),
                i <= n,
                id_changed@.map_values(|x: UserIdentities| x@) == idc,
                self@ == (StoreV {
                    tables: (TablesV {
                        users: saved_user_rows(base7.tables.users, aid, idc.take(i as int)),
                        ..base7.tables
                    }),
                    ..base7
                }),
            decreases n - i,
        {
            proof {
                assert(id_changed@[i as int]@ == idc[i as int]);
            }
            self.tables.upsert_user(aid, &id_changed[i]);
            proof {
                assert(idc.take(i as int + 1).drop_last() =~= idc.take(i as int));
                assert(idc.take(i as int + 1).last() == idc[i as int]);
                assert(self@ =~= (StoreV {
                    tables: (TablesV {
                        users: saved_user_rows(base7.tables.users, aid, idc.take(i as int + 1)),
                        ..base7.tables
                    }),
                    ..base7
                }));
            }
            i += 1;
        }
        proof {
            assert(idc.take(idc.len() as int) =~= idc);
        }
        let ghost base8 = self@;
        let ghost hb = cv.message_hashes;
        let mut i: usize = 0;
        let n = message_hashes.len();
        while i < n
            invariant
                n == message_hashes.len(),
                i <= n,
                message_hashes@.map_values(|x: OlmMessageHash| x@) == hb,
                self@ == (StoreV {
                    tables: (TablesV {
                        olm_hashes: saved_hash_rows(base8.tables.olm_hashes, aid, hb.take(i as int)),
                        ..base8.tables
                    }),
                    ..base8
                }),
            decreases n - i,
        {
            proof {
                assert(message_hashes@[i as int]@ == hb[i as int]);
            }
            self.tables.add_hash(aid, &message_hashes[i]);
            proof {
                assert(hb.take(i as int + 1).drop_last() =~= hb.take(i as int));
                assert(hb.take(i as int + 1).last() == hb[i as int]);
                assert(self@ =~= (StoreV {
                    tables: (TablesV {
                        olm_hashes: saved_hash_rows(
                            base8.tables.olm_hashes,
                            aid,
                            hb.take(i as int + 1),
                        ),
                        ..base8.tables
                    }),
                    ..base8
                }));
            }
            i += 1;
        }
        proof {
            assert(hb.take(hb.len() as int) =~= hb);
            assert(self@ =~= (StoreV {
                cache: self@.cache,
                account_info: changes_info(old(self)@, cv),
                tables: apply_changes_tables(acct_applied_tables(old(self)@.tables, cv), aid, cv),
                ..old(self)@
            }));
        }
        Ok(())
    }
}

} // verus!
