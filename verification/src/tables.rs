//! The row image of the store: one sequence of rows per table.
//!
//! This is the durable state.  Opening a store takes a `Tables` value (read
//! from disk by the caller), every operation describes its effect on it
//! exactly, and closing hands it back.  Keys follow the schema: accounts are
//! keyed by (user, device), sessions by their globally unique id, group
//! sessions by (account, session id, sender key), devices by (account, user,
//! device), identities by (account, user), settings by (account, key),
//! replay hashes by the full (account, sender key, hash) triple.
//!
//! Upserts act on the first row matching their key and append otherwise;
//! deletes drop every matching row.  Child rows of devices and group sessions
//! are additive-only (see [`crate::listops`]).  For forwarding chains that is
//! confirmed design: a chain grows monotonically under the group-ratchet
//! protocol.  For device capability rows it is more likely a gap than a
//! feature — rows for capabilities a later save no longer carries are never
//! pruned through this path, only a device delete removes them.

use vstd::prelude::*;
use crate::records::{
    str_eq, svs, spv, stv, Account, AccountV, InboundGroupSession, InboundGroupSessionV, Device,
    DeviceV, CrossSigningKey, CrossSigningKeyV, UserIdentities, UserIdentitiesV, PrivateIdentity,
    PrivateIdentityV, OlmMessageHash, clone_strings, clone_pairs, clone_triples, clone_opt_string,
};
use crate::seq_find::{
    first_where, has_where, upsert_where, remove_where, not_of, unique_by, lemma_first_where,
    lemma_first_where_is, lemma_first_where_none, lemma_filter_take_step, lemma_take_all,
};
use crate::listops::{
    add_missing_strings, add_missing_pairs, add_missing_triples, merge_strings, merge_pairs,
    merge_triples,
};
use crate::json::{string_list_json, string_list_to_json};
use crate::pickle::{SealedPickleKey, SealedPickleKeyV};

verus! {

// ---------------------------------------------------------------- rows

/// A pairwise-session row: the timestamps stand as serialized JSON text,
/// exactly as they are stored.
pub struct SessionRow {
    pub account_id: usize,
    pub session_id: String,
    pub sender_key: String,
    pub creation_time_json: String,
    pub last_use_time_json: String,
    pub pickle: String,
}

#[verifier::ext_equal]
pub ghost struct SessionRowV {
    pub account_id: usize,
    pub session_id: Seq<char>,
    pub sender_key: Seq<char>,
    pub creation_time_json: Seq<char>,
    pub last_use_time_json: Seq<char>,
    pub pickle: Seq<char>,
}

impl View for SessionRow {
    type V = SessionRowV;

    open spec fn view(&self) -> SessionRowV {
        SessionRowV {
            account_id: self.account_id,
            session_id: self.session_id@,
            sender_key: self.sender_key@,
            creation_time_json: self.creation_time_json@,
            last_use_time_json: self.last_use_time_json@,
            pickle: self.pickle@,
        }
    }
}

impl Clone for SessionRow {
    fn clone(&self) -> (r: Self)
        ensures
            r@ == self@,
    {
        SessionRow {
            account_id: self.account_id,
            session_id: self.session_id.clone(),
            sender_key: self.sender_key.clone(),
            creation_time_json: self.creation_time_json.clone(),
            last_use_time_json: self.last_use_time_json.clone(),
            pickle: self.pickle.clone(),
        }
    }
}

/// A tracked-user row.
pub struct TrackedUserRow {
    pub account_id: usize,
    pub user_id: String,
    pub dirty: bool,
}

#[verifier::ext_equal]
pub ghost struct TrackedUserRowV {
    pub account_id: usize,
    pub user_id: Seq<char>,
    pub dirty: bool,
}

impl View for TrackedUserRow {
    type V = TrackedUserRowV;

    open spec fn view(&self) -> TrackedUserRowV {
        TrackedUserRowV { account_id: self.account_id, user_id: self.user_id@, dirty: self.dirty }
    }
}

/// A group-session row; the claimed keys and the forwarding chain live
/// inside the session value and are removed with it, as the schema's
/// cascading deletes do.
pub struct GroupSessionRow {
    pub account_id: usize,
    pub session: InboundGroupSession,
}

#[verifier::ext_equal]
pub ghost struct GroupSessionRowV {
    pub account_id: usize,
    pub session: InboundGroupSessionV,
}

impl View for GroupSessionRow {
    type V = GroupSessionRowV;

    open spec fn view(&self) -> GroupSessionRowV {
        GroupSessionRowV { account_id: self.account_id, session: self.session@ }
    }
}

/// A device row; capability rows live inside the device value and are
/// removed with it.
pub struct DeviceRow {
    pub account_id: usize,
    pub device: Device,
}

#[verifier::ext_equal]
pub ghost struct DeviceRowV {
    pub account_id: usize,
    pub device: DeviceV,
}

impl View for DeviceRow {
    type V = DeviceRowV;

    open spec fn view(&self) -> DeviceRowV {
        DeviceRowV { account_id: self.account_id, device: self.device@ }
    }
}

/// One stored cross-signing key: the usage list stands as serialized JSON
/// text, exactly as it is stored.
pub struct CrossSigningKeyRow {
    pub usage_json: String,
    pub keys: Vec<(String, String)>,
    pub signatures: Vec<(String, String, String)>,
}

#[verifier::ext_equal]
pub ghost struct CrossSigningKeyRowV {
    pub usage_json: Seq<char>,
    pub keys: Seq<(Seq<char>, Seq<char>)>,
    pub signatures: Seq<(Seq<char>, Seq<char>, Seq<char>)>,
}

impl View for CrossSigningKeyRow {
    type V = CrossSigningKeyRowV;

    open spec fn view(&self) -> CrossSigningKeyRowV {
        CrossSigningKeyRowV {
            usage_json: self.usage_json@,
            keys: spv(self.keys@),
            signatures: stv(self.signatures@),
        }
    }
}

impl Clone for CrossSigningKeyRow {
    fn clone(&self) -> (r: Self)
        ensures
            r@ == self@,
    {
        CrossSigningKeyRow {
            usage_json: self.usage_json.clone(),
            keys: clone_pairs(&self.keys),
            signatures: clone_triples(&self.signatures),
        }
    }
}

/// A user's cross-signing rows: master and self-signing always, user-signing
/// and the trust flag only once an own identity was saved.
pub struct UserRow {
    pub account_id: usize,
    pub user_id: String,
    pub master_key: CrossSigningKeyRow,
    pub self_signing_key: CrossSigningKeyRow,
    pub user_signing_key: Option<CrossSigningKeyRow>,
    pub trusted: Option<bool>,
}

#[verifier::ext_equal]
pub ghost struct UserRowV {
    pub account_id: usize,
    pub user_id: Seq<char>,
    pub master_key: CrossSigningKeyRowV,
    pub self_signing_key: CrossSigningKeyRowV,
    pub user_signing_key: Option<CrossSigningKeyRowV>,
    pub trusted: Option<bool>,
}

impl View for UserRow {
    type V = UserRowV;

    open spec fn view(&self) -> UserRowV {
        UserRowV {
            account_id: self.account_id,
            user_id: self.user_id@,
            master_key: self.master_key@,
            self_signing_key: self.self_signing_key@,
            user_signing_key: match &self.user_signing_key {
                Some(k) => Some(k@),
                None => None,
            },
            trusted: self.trusted,
        }
    }
}

impl Clone for UserRow {
    fn clone(&self) -> (r: Self)
        ensures
            r@ == self@,
    {
        UserRow {
            account_id: self.account_id,
            user_id: self.user_id.clone(),
            master_key: self.master_key.clone(),
            self_signing_key: self.self_signing_key.clone(),
            user_signing_key: match &self.user_signing_key {
                Some(k) => Some(k.clone()),
                None => None,
            },
            trusted: self.trusted,
        }
    }
}

/// A stored setting.
pub struct KeyValueRow {
    pub account_id: usize,
    pub key: String,
    pub value: String,
}

#[verifier::ext_equal]
pub ghost struct KeyValueRowV {
    pub account_id: usize,
    pub key: Seq<char>,
    pub value: Seq<char>,
}

impl View for KeyValueRow {
    type V = KeyValueRowV;

    open spec fn view(&self) -> KeyValueRowV {
        KeyValueRowV { account_id: self.account_id, key: self.key@, value: self.value@ }
    }
}

/// A replay-protection row.
pub struct OlmHashRow {
    pub account_id: usize,
    pub sender_key: String,
    pub hash: String,
}

#[verifier::ext_equal]
pub ghost struct OlmHashRowV {
    pub account_id: usize,
    pub sender_key: Seq<char>,
    pub hash: Seq<char>,
}

impl View for OlmHashRow {
    type V = OlmHashRowV;

    open spec fn view(&self) -> OlmHashRowV {
        OlmHashRowV { account_id: self.account_id, sender_key: self.sender_key@, hash: self.hash@ }
    }
}

/// A private cross-signing identity row.
pub struct PrivateIdentityRow {
    pub account_id: usize,
    pub identity: PrivateIdentity,
}

#[verifier::ext_equal]
pub ghost struct PrivateIdentityRowV {
    pub account_id: usize,
    pub identity: PrivateIdentityV,
}

impl View for PrivateIdentityRow {
    type V = PrivateIdentityRowV;

    open spec fn view(&self) -> PrivateIdentityRowV {
        PrivateIdentityRowV { account_id: self.account_id, identity: self.identity@ }
    }
}

/// A stored pickle-key record, independent of the account rows.
pub struct PickleKeyRow {
    pub user_id: String,
    pub device_id: String,
    pub sealed: SealedPickleKey,
}

#[verifier::ext_equal]
pub ghost struct PickleKeyRowV {
    pub user_id: Seq<char>,
    pub device_id: Seq<char>,
    pub sealed: SealedPickleKeyV,
}

impl View for PickleKeyRow {
    type V = PickleKeyRowV;

    open spec fn view(&self) -> PickleKeyRowV {
        PickleKeyRowV { user_id: self.user_id@, device_id: self.device_id@, sealed: self.sealed@ }
    }
}

// ---------------------------------------------------------------- views

pub open spec fn accounts_v(s: Seq<Account>) -> Seq<AccountV> {
    s.map_values(|a: Account| a@)
}

pub open spec fn sessions_rows_v(s: Seq<SessionRow>) -> Seq<SessionRowV> {
    s.map_values(|r: SessionRow| r@)
}

pub open spec fn tracked_rows_v(s: Seq<TrackedUserRow>) -> Seq<TrackedUserRowV> {
    s.map_values(|r: TrackedUserRow| r@)
}

pub open spec fn group_rows_v(s: Seq<GroupSessionRow>) -> Seq<GroupSessionRowV> {
    s.map_values(|r: GroupSessionRow| r@)
}

pub open spec fn device_rows_v(s: Seq<DeviceRow>) -> Seq<DeviceRowV> {
    s.map_values(|r: DeviceRow| r@)
}

pub open spec fn user_rows_v(s: Seq<UserRow>) -> Seq<UserRowV> {
    s.map_values(|r: UserRow| r@)
}

pub open spec fn kv_rows_v(s: Seq<KeyValueRow>) -> Seq<KeyValueRowV> {
    s.map_values(|r: KeyValueRow| r@)
}

pub open spec fn hash_rows_v(s: Seq<OlmHashRow>) -> Seq<OlmHashRowV> {
    s.map_values(|r: OlmHashRow| r@)
}

pub open spec fn priv_rows_v(s: Seq<PrivateIdentityRow>) -> Seq<PrivateIdentityRowV> {
    s.map_values(|r: PrivateIdentityRow| r@)
}

pub open spec fn pk_rows_v(s: Seq<PickleKeyRow>) -> Seq<PickleKeyRowV> {
    s.map_values(|r: PickleKeyRow| r@)
}

// ---------------------------------------------------------------- keys

pub open spec fn acct_key(u: Seq<char>, d: Seq<char>) -> spec_fn(AccountV) -> bool {
    |a: AccountV| a.user_id == u && a.device_id == d
}

pub open spec fn sess_id_is(id: Seq<char>) -> spec_fn(SessionRowV) -> bool {
    |r: SessionRowV| r.session_id == id
}

pub open spec fn sess_for(aid: usize, k: Seq<char>) -> spec_fn(SessionRowV) -> bool {
    |r: SessionRowV| r.account_id == aid && r.sender_key == k
}

pub open spec fn tracked_key(aid: usize, u: Seq<char>) -> spec_fn(TrackedUserRowV) -> bool {
    |r: TrackedUserRowV| r.account_id == aid && r.user_id == u
}

pub open spec fn group_key(aid: usize, sid: Seq<char>, sk: Seq<char>) -> spec_fn(
    GroupSessionRowV,
) -> bool {
    |r: GroupSessionRowV| r.account_id == aid && r.session.session_id == sid
        && r.session.sender_key == sk
}

pub open spec fn group_for(aid: usize) -> spec_fn(GroupSessionRowV) -> bool {
    |r: GroupSessionRowV| r.account_id == aid
}

pub open spec fn device_key(aid: usize, u: Seq<char>, d: Seq<char>) -> spec_fn(
    DeviceRowV,
) -> bool {
    |r: DeviceRowV| r.account_id == aid && r.device.user_id == u && r.device.device_id == d
}

pub open spec fn device_for(aid: usize, u: Seq<char>) -> spec_fn(DeviceRowV) -> bool {
    |r: DeviceRowV| r.account_id == aid && r.device.user_id == u
}

pub open spec fn user_key(aid: usize, u: Seq<char>) -> spec_fn(UserRowV) -> bool {
    |r: UserRowV| r.account_id == aid && r.user_id == u
}

pub open spec fn kv_key(aid: usize, k: Seq<char>) -> spec_fn(KeyValueRowV) -> bool {
    |r: KeyValueRowV| r.account_id == aid && r.key == k
}

pub open spec fn hash_key(aid: usize, s: Seq<char>, h: Seq<char>) -> spec_fn(
    OlmHashRowV,
) -> bool {
    |r: OlmHashRowV| r.account_id == aid && r.sender_key == s && r.hash == h
}

pub open spec fn priv_key(aid: usize, u: Seq<char>) -> spec_fn(PrivateIdentityRowV) -> bool {
    |r: PrivateIdentityRowV| r.account_id == aid && r.identity.user_id == u
}

pub open spec fn priv_for(aid: usize) -> spec_fn(PrivateIdentityRowV) -> bool {
    |r: PrivateIdentityRowV| r.account_id == aid
}

pub open spec fn pk_key(u: Seq<char>, d: Seq<char>) -> spec_fn(PickleKeyRowV) -> bool {
    |r: PickleKeyRowV| r.user_id == u && r.device_id == d
}

// ---------------------------------------------------------------- tables

/// The whole row image.
pub struct Tables {
    pub accounts: Vec<Account>,
    pub private_identities: Vec<PrivateIdentityRow>,
    pub pickle_keys: Vec<PickleKeyRow>,
    pub sessions: Vec<SessionRow>,
    pub tracked_users: Vec<TrackedUserRow>,
    pub group_sessions: Vec<GroupSessionRow>,
    pub devices: Vec<DeviceRow>,
    pub users: Vec<UserRow>,
    pub key_values: Vec<KeyValueRow>,
    pub olm_hashes: Vec<OlmHashRow>,
}

#[verifier::ext_equal]
pub ghost struct TablesV {
    pub accounts: Seq<AccountV>,
    pub private_identities: Seq<PrivateIdentityRowV>,
    pub pickle_keys: Seq<PickleKeyRowV>,
    pub sessions: Seq<SessionRowV>,
    pub tracked_users: Seq<TrackedUserRowV>,
    pub group_sessions: Seq<GroupSessionRowV>,
    pub devices: Seq<DeviceRowV>,
    pub users: Seq<UserRowV>,
    pub key_values: Seq<KeyValueRowV>,
    pub olm_hashes: Seq<OlmHashRowV>,
}

impl View for Tables {
    type V = TablesV;

    open spec fn view(&self) -> TablesV {
        TablesV {
            accounts: accounts_v(self.accounts@),
            private_identities: priv_rows_v(self.private_identities@),
            pickle_keys: pk_rows_v(self.pickle_keys@),
            sessions: sessions_rows_v(self.sessions@),
            tracked_users: tracked_rows_v(self.tracked_users@),
            group_sessions: group_rows_v(self.group_sessions@),
            devices: device_rows_v(self.devices@),
            users: user_rows_v(self.users@),
            key_values: kv_rows_v(self.key_values@),
            olm_hashes: hash_rows_v(self.olm_hashes@),
        }
    }
}

/// The row image of a database that holds nothing yet.
pub open spec fn empty_tables() -> TablesV {
    TablesV {
        accounts: Seq::empty(),
        private_identities: Seq::empty(),
        pickle_keys: Seq::empty(),
        sessions: Seq::empty(),
        tracked_users: Seq::empty(),
        group_sessions: Seq::empty(),
        devices: Seq::empty(),
        users: Seq::empty(),
        key_values: Seq::empty(),
        olm_hashes: Seq::empty(),
    }
}

impl Tables {
    /// A row image with no rows: what schema bootstrap leaves behind on a
    /// fresh file.
    pub fn new() -> (r: Tables)
        ensures
            r@ == empty_tables(),
    {
        let r = Tables {
            accounts: Vec::new(),
            private_identities: Vec::new(),
            pickle_keys: Vec::new(),
            sessions: Vec::new(),
            tracked_users: Vec::new(),
            group_sessions: Vec::new(),
            devices: Vec::new(),
            users: Vec::new(),
            key_values: Vec::new(),
            olm_hashes: Vec::new(),
        };
        proof {
            assert(r@ =~= empty_tables());
        }
        r
    }

    /// Index of the account row for this (user, device), if any.
    #[verifier::loop_isolation(false)]
    pub fn find_account(&self, user_id: &str, device_id: &str) -> (r: Option<usize>)
        ensures
            r matches Some(i) ==> first_where(self@.accounts, acct_key(user_id@, device_id@))
                == i as int,
            r is None ==> first_where(self@.accounts, acct_key(user_id@, device_id@)) == -1,
    {
        let ghost p = acct_key(user_id@, device_id@);
        let mut i: usize = 0;
        let n = self.accounts.len();
        while i < n
            invariant
                n == self.accounts.len(),
                i <= n,
                p == acct_key(user_id@, device_id@),
                forall|j: int| 0 <= j < i ==> !p(self@.accounts[j]),
            decreases n - i,
        {
            if str_eq(self.accounts[i].user_id.as_str(), user_id) && str_eq(
                self.accounts[i].device_id.as_str(),
                device_id,
            ) {
                proof {
                    assert(p(self@.accounts[i as int]));
                    lemma_first_where_is(self@.accounts, p, i as int);
                }
                return Some(i);
            }
            proof {
                assert(!p(self@.accounts[i as int]));
            }
            i += 1;
        }
        proof {
            lemma_first_where_none(self@.accounts, p);
        }
        None
    }

    /// Upsert the account row keyed by its (user, device): on conflict the
    /// row is updated in place and keeps its position (its row id), else it
    /// is appended.  Returns the row's index, which scopes every dependent
    /// row.
    #[verifier::loop_isolation(false)]
    pub fn upsert_account(&mut self, a: Account) -> (idx: usize)
        ensures
            final(self)@ == (TablesV {
                accounts: upsert_where(
                    old(self)@.accounts,
                    acct_key(a@.user_id, a@.device_id),
                    a@,
                ),
                ..old(self)@
            }),
            ({
                let i = first_where(old(self)@.accounts, acct_key(a@.user_id, a@.device_id));
                if i >= 0 {
                    idx == i
                } else {
                    idx == old(self)@.accounts.len()
                }
            }),
            idx < final(self)@.accounts.len(),
            final(self)@.accounts[idx as int] == a@,
    {
        let ghost p = acct_key(a@.user_id, a@.device_id);
        let ghost orig = self@;
        let ghost av = a@;
        let found = self.find_account(a.user_id.as_str(), a.device_id.as_str());
        match found {
            Some(i) => {
                proof {
                    lemma_first_where(orig.accounts, p);
                    assert(orig.accounts.len() == self.accounts@.len());
                }
                self.accounts[i] = a;
                proof {
                    assert(accounts_v(self.accounts@) =~= orig.accounts.update(i as int, av));
                    assert(self@ =~= (TablesV {
                        accounts: upsert_where(orig.accounts, p, av),
                        ..orig
                    }));
                }
                i
            },
            None => {
                let idx = self.accounts.len();
                self.accounts.push(a);
                proof {
                    lemma_first_where(orig.accounts, p);
                    assert(accounts_v(self.accounts@) =~= orig.accounts.push(av));
                    assert(self@ =~= (TablesV {
                        accounts: upsert_where(orig.accounts, p, av),
                        ..orig
                    }));
                }
                idx
            },
        }
    }

    /// Upsert a session row keyed by its globally unique session id.
    #[verifier::loop_isolation(false)]
    pub fn upsert_session_row(&mut self, row: SessionRow)
        ensures
            final(self)@ == (TablesV {
                sessions: upsert_where(old(self)@.sessions, sess_id_is(row@.session_id), row@),
                ..old(self)@
            }),
    {
        let ghost p = sess_id_is(row@.session_id);
        let ghost orig = self@;
        let ghost rv = row@;
        let mut i: usize = 0;
        let n = self.sessions.len();
        while i < n
            invariant
                n == self.sessions.len(),
                i <= n,
                *self == *old(self),
                p == sess_id_is(row@.session_id),
                forall|j: int| 0 <= j < i ==> !p(self@.sessions[j]),
            decreases n - i,
        {
            if str_eq(self.sessions[i].session_id.as_str(), row.session_id.as_str()) {
                proof {
                    assert(p(self@.sessions[i as int]));
                    lemma_first_where_is(orig.sessions, p, i as int);
                    assert(orig.sessions.len() == self.sessions@.len());
                }
                self.sessions[i] = row;
                proof {
                    assert(sessions_rows_v(self.sessions@) =~= orig.sessions.update(i as int, rv));
                    assert(self@ =~= (TablesV {
                        sessions: upsert_where(orig.sessions, p, rv),
                        ..orig
                    }));
                }
                return ;
            }
            proof {
                assert(!p(self@.sessions[i as int]));
            }
            i += 1;
        }
        proof {
            lemma_first_where_none(orig.sessions, p);
        }
        let ghost rv = row@;
        self.sessions.push(row);
        proof {
            assert(sessions_rows_v(self.sessions@) =~= orig.sessions.push(rv));
            assert(self@ =~= (TablesV { sessions: upsert_where(orig.sessions, p, rv), ..orig }));
        }
    }

    /// All session rows for this account and sender key, in table order.
    #[verifier::loop_isolation(false)]
    pub fn sessions_for(&self, aid: usize, sender_key: &str) -> (r: Vec<SessionRow>)
        ensures
            sessions_rows_v(r@) == self@.sessions.filter(sess_for(aid, sender_key@)),
    {
        let ghost p = sess_for(aid, sender_key@);
        let mut r: Vec<SessionRow> = Vec::new();
        let mut i: usize = 0;
        let n = self.sessions.len();
        while i < n
            invariant
                n == self.sessions.len(),
                i <= n,
                p == sess_for(aid, sender_key@),
                sessions_rows_v(r@) == self@.sessions.take(i as int).filter(p),
            decreases n - i,
        {
            proof {
                lemma_filter_take_step(self@.sessions, p, i as int);
            }
            if self.sessions[i].account_id == aid && str_eq(
                self.sessions[i].sender_key.as_str(),
                sender_key,
            ) {
                proof {
                    assert(p(self@.sessions[i as int]));
                }
                let ghost pre = sessions_rows_v(r@);
                r.push(self.sessions[i].clone());
                proof {
                    assert(sessions_rows_v(r@) =~= pre.push(self@.sessions[i as int]));
                }
            } else {
                proof {
                    assert(!p(self@.sessions[i as int]));
                }
            }
            i += 1;
        }
        proof {
            lemma_take_all(self@.sessions);
        }
        r
    }

    /// Upsert the tracked flag of a user under an account.
    #[verifier::loop_isolation(false)]
    pub fn upsert_tracked(&mut self, aid: usize, user_id: &str, dirty: bool)
        ensures
            final(self)@ == (TablesV {
                tracked_users: upsert_where(
                    old(self)@.tracked_users,
                    tracked_key(aid, user_id@),
                    TrackedUserRowV { account_id: aid, user_id: user_id@, dirty },
                ),
                ..old(self)@
            }),
    {
        let ghost p = tracked_key(aid, user_id@);
        let ghost orig = self@;
        let ghost rv = TrackedUserRowV { account_id: aid, user_id: user_id@, dirty };
        let mut i: usize = 0;
        let n = self.tracked_users.len();
        while i < n
            invariant
                n == self.tracked_users.len(),
                i <= n,
                *self == *old(self),
                p == tracked_key(aid, user_id@),
                forall|j: int| 0 <= j < i ==> !p(self@.tracked_users[j]),
            decreases n - i,
        {
            if self.tracked_users[i].account_id == aid && str_eq(
                self.tracked_users[i].user_id.as_str(),
                user_id,
            ) {
                proof {
                    assert(p(self@.tracked_users[i as int]));
                    lemma_first_where_is(orig.tracked_users, p, i as int);
                }
                let row = TrackedUserRow { account_id: aid, user_id: user_id.to_owned(), dirty };
                self.tracked_users[i] = row;
                proof {
                    assert(tracked_rows_v(self.tracked_users@) =~= orig.tracked_users.update(
                        i as int,
                        rv,
                    ));
                    assert(self@ =~= (TablesV {
                        tracked_users: upsert_where(orig.tracked_users, p, rv),
                        ..orig
                    }));
                }
                return ;
            }
            proof {
                assert(!p(self@.tracked_users[i as int]));
            }
            i += 1;
        }
        proof {
            lemma_first_where_none(orig.tracked_users, p);
        }
        let row = TrackedUserRow { account_id: aid, user_id: user_id.to_owned(), dirty };
        self.tracked_users.push(row);
        proof {
            assert(tracked_rows_v(self.tracked_users@) =~= orig.tracked_users.push(rv));
            assert(self@ =~= (TablesV {
                tracked_users: upsert_where(orig.tracked_users, p, rv),
                ..orig
            }));
        }
    }

    /// Upsert a stored setting keyed by (account, key).
    #[verifier::loop_isolation(false)]
    pub fn upsert_value(&mut self, aid: usize, key: &str, value: &str)
        ensures
            final(self)@ == (TablesV {
                key_values: upsert_where(
                    old(self)@.key_values,
                    kv_key(aid, key@),
                    KeyValueRowV { account_id: aid, key: key@, value: value@ },
                ),
                ..old(self)@
            }),
    {
        let ghost p = kv_key(aid, key@);
        let ghost orig = self@;
        let ghost rv = KeyValueRowV { account_id: aid, key: key@, value: value@ };
        let mut i: usize = 0;
        let n = self.key_values.len();
        while i < n
            invariant
                n == self.key_values.len(),
                i <= n,
                *self == *old(self),
                p == kv_key(aid, key@),
                forall|j: int| 0 <= j < i ==> !p(self@.key_values[j]),
            decreases n - i,
        {
            if self.key_values[i].account_id == aid && str_eq(
                self.key_values[i].key.as_str(),
                key,
            ) {
                proof {
                    assert(p(self@.key_values[i as int]));
                    lemma_first_where_is(orig.key_values, p, i as int);
                }
                let row = KeyValueRow {
                    account_id: aid,
                    key: key.to_owned(),
                    value: value.to_owned(),
                };
                self.key_values[i] = row;
                proof {
                    assert(kv_rows_v(self.key_values@) =~= orig.key_values.update(i as int, rv));
                    assert(self@ =~= (TablesV {
                        key_values: upsert_where(orig.key_values, p, rv),
                        ..orig
                    }));
                }
                return ;
            }
            proof {
                assert(!p(self@.key_values[i as int]));
            }
            i += 1;
        }
        proof {
            lemma_first_where_none(orig.key_values, p);
        }
        let row = KeyValueRow { account_id: aid, key: key.to_owned(), value: value.to_owned() };
        self.key_values.push(row);
        proof {
            assert(kv_rows_v(self.key_values@) =~= orig.key_values.push(rv));
            assert(self@ =~= (TablesV {
                key_values: upsert_where(orig.key_values, p, rv),
                ..orig
            }));
        }
    }

    /// Remove the setting stored under (account, key), if any.
    #[verifier::loop_isolation(false)]
    pub fn remove_value(&mut self, aid: usize, key: &str)
        ensures
            final(self)@ == (TablesV {
                key_values: remove_where(old(self)@.key_values, kv_key(aid, key@)),
                ..old(self)@
            }),
    {
        let ghost p = kv_key(aid, key@);
        let ghost orig = self@;
        let ghost q = not_of(p);
        let mut kept: Vec<KeyValueRow> = Vec::new();
        let mut i: usize = 0;
        let n = self.key_values.len();
        while i < n
            invariant
                n == self.key_values.len(),
                i <= n,
                *self == *old(self),
                p == kv_key(aid, key@),
                q == not_of(p),
                kv_rows_v(kept@) == self@.key_values.take(i as int).filter(q),
            decreases n - i,
        {
            proof {
                lemma_filter_take_step(self@.key_values, q, i as int);
            }
            if !(self.key_values[i].account_id == aid && str_eq(
                self.key_values[i].key.as_str(),
                key,
            )) {
                proof {
                    assert(q(self@.key_values[i as int]));
                }
                let ghost pre = kv_rows_v(kept@);
                let row = KeyValueRow {
                    account_id: self.key_values[i].account_id,
                    key: self.key_values[i].key.clone(),
                    value: self.key_values[i].value.clone(),
                };
                kept.push(row);
                proof {
                    assert(kv_rows_v(kept@) =~= pre.push(self@.key_values[i as int]));
                }
            } else {
                proof {
                    assert(!q(self@.key_values[i as int]));
                }
            }
            i += 1;
        }
        proof {
            lemma_take_all(self@.key_values);
        }
        self.key_values = kept;
        proof {
            assert(self@ =~= (TablesV { key_values: remove_where(orig.key_values, p), ..orig }));
        }
    }

    /// The value stored under (account, key), if any.
    #[verifier::loop_isolation(false)]
    pub fn get_value(&self, aid: usize, key: &str) -> (r: Option<String>)
        ensures
            ({
                let i = first_where(self@.key_values, kv_key(aid, key@));
                if i >= 0 {
                    r matches Some(v) && v@ == self@.key_values[i].value
                } else {
                    r is None
                }
            }),
    {
        let ghost p = kv_key(aid, key@);
        let mut i: usize = 0;
        let n = self.key_values.len();
        while i < n
            invariant
                n == self.key_values.len(),
                i <= n,
                p == kv_key(aid, key@),
                forall|j: int| 0 <= j < i ==> !p(self@.key_values[j]),
            decreases n - i,
        {
            if self.key_values[i].account_id == aid && str_eq(
                self.key_values[i].key.as_str(),
                key,
            ) {
                proof {
                    assert(p(self@.key_values[i as int]));
                    lemma_first_where_is(self@.key_values, p, i as int);
                }
                return Some(self.key_values[i].value.clone());
            }
            proof {
                assert(!p(self@.key_values[i as int]));
            }
            i += 1;
        }
        proof {
            lemma_first_where_none(self@.key_values, p);
        }
        None
    }

    /// Record a replay-protection hash if it is not recorded yet.
    #[verifier::loop_isolation(false)]
    pub fn add_hash(&mut self, aid: usize, h: &OlmMessageHash)
        ensures
            final(self)@ == (TablesV {
                olm_hashes: if has_where(
                    old(self)@.olm_hashes,
                    hash_key(aid, h@.sender_key, h@.hash),
                ) {
                    old(self)@.olm_hashes
                } else {
                    old(self)@.olm_hashes.push(
                        OlmHashRowV { account_id: aid, sender_key: h@.sender_key, hash: h@.hash },
                    )
                },
                ..old(self)@
            }),
    {
        let ghost orig = self@;
        let present = self.has_hash(aid, h);
        if !present {
            let row = OlmHashRow {
                account_id: aid,
                sender_key: h.sender_key.clone(),
                hash: h.hash.clone(),
            };
            self.olm_hashes.push(row);
            proof {
                assert(hash_rows_v(self.olm_hashes@) =~= orig.olm_hashes.push(
                    OlmHashRowV { account_id: aid, sender_key: h@.sender_key, hash: h@.hash },
                ));
                assert(self@ =~= (TablesV {
                    olm_hashes: orig.olm_hashes.push(
                        OlmHashRowV { account_id: aid, sender_key: h@.sender_key, hash: h@.hash },
                    ),
                    ..orig
                }));
            }
        } else {
            proof {
                assert(self@ =~= orig);
            }
        }
    }

    /// Whether a replay-protection hash is recorded.
    #[verifier::loop_isolation(false)]
    pub fn has_hash(&self, aid: usize, h: &OlmMessageHash) -> (r: bool)
        ensures
            r == has_where(self@.olm_hashes, hash_key(aid, h@.sender_key, h@.hash)),
    {
        let ghost p = hash_key(aid, h@.sender_key, h@.hash);
        let mut i: usize = 0;
        let n = self.olm_hashes.len();
        while i < n
            invariant
                n == self.olm_hashes.len(),
                i <= n,
                p == hash_key(aid, h@.sender_key, h@.hash),
                forall|j: int| 0 <= j < i ==> !p(self@.olm_hashes[j]),
            decreases n - i,
        {
            if self.olm_hashes[i].account_id == aid && str_eq(
                self.olm_hashes[i].sender_key.as_str(),
                h.sender_key.as_str(),
            ) && str_eq(self.olm_hashes[i].hash.as_str(), h.hash.as_str()) {
                proof {
                    assert(p(self@.olm_hashes[i as int]));
                }
                return true;
            }
            proof {
                assert(!p(self@.olm_hashes[i as int]));
            }
            i += 1;
        }
        false
    }

    /// Upsert the private identity keyed by (account, user).
    #[verifier::loop_isolation(false)]
    pub fn upsert_private_identity(&mut self, aid: usize, p_id: &PrivateIdentity)
        ensures
            final(self)@ == (TablesV {
                private_identities: upsert_where(
                    old(self)@.private_identities,
                    priv_key(aid, p_id@.user_id),
                    PrivateIdentityRowV { account_id: aid, identity: p_id@ },
                ),
                ..old(self)@
            }),
    {
        let ghost p = priv_key(aid, p_id@.user_id);
        let ghost orig = self@;
        let ghost rv = PrivateIdentityRowV { account_id: aid, identity: p_id@ };
        let mut i: usize = 0;
        let n = self.private_identities.len();
        while i < n
            invariant
                n == self.private_identities.len(),
                i <= n,
                *self == *old(self),
                p == priv_key(aid, p_id@.user_id),
                forall|j: int| 0 <= j < i ==> !p(self@.private_identities[j]),
            decreases n - i,
        {
            if self.private_identities[i].account_id == aid && str_eq(
                self.private_identities[i].identity.user_id.as_str(),
                p_id.user_id.as_str(),
            ) {
                proof {
                    assert(p(self@.private_identities[i as int]));
                    lemma_first_where_is(orig.private_identities, p, i as int);
                }
                let row = PrivateIdentityRow { account_id: aid, identity: p_id.clone() };
                self.private_identities[i] = row;
                proof {
                    assert(priv_rows_v(self.private_identities@) =~= orig.private_identities
                        .update(i as int, rv));
                    assert(self@ =~= (TablesV {
                        private_identities: upsert_where(orig.private_identities, p, rv),
                        ..orig
                    }));
                }
                return ;
            }
            proof {
                assert(!p(self@.private_identities[i as int]));
            }
            i += 1;
        }
        proof {
            lemma_first_where_none(orig.private_identities, p);
        }
        let row = PrivateIdentityRow { account_id: aid, identity: p_id.clone() };
        self.private_identities.push(row);
        proof {
            assert(priv_rows_v(self.private_identities@) =~= orig.private_identities.push(rv));
            assert(self@ =~= (TablesV {
                private_identities: upsert_where(orig.private_identities, p, rv),
                ..orig
            }));
        }
    }

    /// The first private-identity row of this account, if any.
    #[verifier::loop_isolation(false)]
    pub fn get_private_identity(&self, aid: usize) -> (r: Option<PrivateIdentity>)
        ensures
            ({
                let i = first_where(self@.private_identities, priv_for(aid));
                if i >= 0 {
                    r matches Some(v) && v@ == self@.private_identities[i].identity
                } else {
                    r is None
                }
            }),
    {
        let ghost p = priv_for(aid);
        let mut i: usize = 0;
        let n = self.private_identities.len();
        while i < n
            invariant
                n == self.private_identities.len(),
                i <= n,
                p == priv_for(aid),
                forall|j: int| 0 <= j < i ==> !p(self@.private_identities[j]),
            decreases n - i,
        {
            if self.private_identities[i].account_id == aid {
                proof {
                    assert(p(self@.private_identities[i as int]));
                    lemma_first_where_is(self@.private_identities, p, i as int);
                }
                return Some(self.private_identities[i].identity.clone());
            }
            proof {
                assert(!p(self@.private_identities[i as int]));
            }
            i += 1;
        }
        proof {
            lemma_first_where_none(self@.private_identities, p);
        }
        None
    }

    /// The sealed pickle key stored for (user, device), if any.
    #[verifier::loop_isolation(false)]
    pub fn find_pickle_key(&self, user_id: &str, device_id: &str) -> (r: Option<SealedPickleKey>)
        ensures
            ({
                let i = first_where(self@.pickle_keys, pk_key(user_id@, device_id@));
                if i >= 0 {
                    r matches Some(v) && v@ == self@.pickle_keys[i].sealed
                } else {
                    r is None
                }
            }),
    {
        let ghost p = pk_key(user_id@, device_id@);
        let mut i: usize = 0;
        let n = self.pickle_keys.len();
        while i < n
            invariant
                n == self.pickle_keys.len(),
                i <= n,
                p == pk_key(user_id@, device_id@),
                forall|j: int| 0 <= j < i ==> !p(self@.pickle_keys[j]),
            decreases n - i,
        {
            if str_eq(self.pickle_keys[i].user_id.as_str(), user_id) && str_eq(
                self.pickle_keys[i].device_id.as_str(),
                device_id,
            ) {
                proof {
                    assert(p(self@.pickle_keys[i as int]));
                    lemma_first_where_is(self@.pickle_keys, p, i as int);
                }
                return Some(self.pickle_keys[i].sealed.clone());
            }
            proof {
                assert(!p(self@.pickle_keys[i as int]));
            }
            i += 1;
        }
        proof {
            lemma_first_where_none(self@.pickle_keys, p);
        }
        None
    }

    /// Upsert the sealed pickle key stored for (user, device).
    #[verifier::loop_isolation(false)]
    pub fn upsert_pickle_key(&mut self, user_id: &str, device_id: &str, sealed: SealedPickleKey)
        ensures
            final(self)@ == (TablesV {
                pickle_keys: upsert_where(
                    old(self)@.pickle_keys,
                    pk_key(user_id@, device_id@),
                    PickleKeyRowV { user_id: user_id@, device_id: device_id@, sealed: sealed@ },
                ),
                ..old(self)@
            }),
    {
        let ghost p = pk_key(user_id@, device_id@);
        let ghost orig = self@;
        let ghost rv = PickleKeyRowV {
            user_id: user_id@,
            device_id: device_id@,
            sealed: sealed@,
        };
        let mut i: usize = 0;
        let n = self.pickle_keys.len();
        while i < n
            invariant
                n == self.pickle_keys.len(),
                i <= n,
                *self == *old(self),
                p == pk_key(user_id@, device_id@),
                rv == (PickleKeyRowV {
                    user_id: user_id@,
                    device_id: device_id@,
                    sealed: sealed@,
                }),
                forall|j: int| 0 <= j < i ==> !p(self@.pickle_keys[j]),
            decreases n - i,
        {
            if str_eq(self.pickle_keys[i].user_id.as_str(), user_id) && str_eq(
                self.pickle_keys[i].device_id.as_str(),
                device_id,
            ) {
                proof {
                    assert(p(self@.pickle_keys[i as int]));
                    lemma_first_where_is(orig.pickle_keys, p, i as int);
                }
                let row = PickleKeyRow {
                    user_id: user_id.to_owned(),
                    device_id: device_id.to_owned(),
                    sealed,
                };
                self.pickle_keys[i] = row;
                proof {
                    assert(pk_rows_v(self.pickle_keys@) =~= orig.pickle_keys.update(i as int, rv));
                    assert(self@ =~= (TablesV {
                        pickle_keys: upsert_where(orig.pickle_keys, p, rv),
                        ..orig
                    }));
                }
                return ;
            }
            proof {
                assert(!p(self@.pickle_keys[i as int]));
            }
            i += 1;
        }
        proof {
            lemma_first_where_none(orig.pickle_keys, p);
        }
        let row = PickleKeyRow {
            user_id: user_id.to_owned(),
            device_id: device_id.to_owned(),
            sealed,
        };
        self.pickle_keys.push(row);
        proof {
            assert(pk_rows_v(self.pickle_keys@) =~= orig.pickle_keys.push(rv));
            assert(self@ =~= (TablesV {
                pickle_keys: upsert_where(orig.pickle_keys, p, rv),
                ..orig
            }));
        }
    }
}


// ------------------------------------------------- merged child rows

/// What a device row holds after a save over a previous row: the main fields
/// are replaced, the capability rows only grow.
pub open spec fn device_merge(prev: DeviceV, d: DeviceV) -> DeviceV {
    DeviceV {
        user_id: d.user_id,
        device_id: d.device_id,
        display_name: d.display_name,
        trust_state: d.trust_state,
        algorithms: add_missing_strings(prev.algorithms, d.algorithms),
        keys: add_missing_pairs(prev.keys, d.keys),
        signatures: add_missing_triples(prev.signatures, d.signatures),
    }
}

/// A device as first stored: its capability lists deduplicated by their keys.
pub open spec fn device_base(d: DeviceV) -> DeviceV {
    DeviceV {
        algorithms: Seq::empty(),
        keys: Seq::empty(),
        signatures: Seq::empty(),
        ..d
    }
}

/// What a device row holds after a save, over the previous row if any.
pub open spec fn device_saved(prev: Option<DeviceV>, d: DeviceV) -> DeviceV {
    match prev {
        Some(o) => device_merge(o, d),
        None => device_merge(device_base(d), d),
    }
}

/// The device row within a row list under (account, user, device), if any.
pub open spec fn found_device_in(
    rows: Seq<DeviceRowV>,
    aid: usize,
    u: Seq<char>,
    dev: Seq<char>,
) -> Option<DeviceV> {
    let i = first_where(rows, device_key(aid, u, dev));
    if i >= 0 {
        Some(rows[i].device)
    } else {
        None
    }
}

/// The device row stored under (account, user, device), if any.
pub open spec fn found_device(t: TablesV, aid: usize, u: Seq<char>, dev: Seq<char>) -> Option<
    DeviceV,
> {
    found_device_in(t.devices, aid, u, dev)
}

/// What a group-session row holds after a save over a previous row: the
/// envelope is replaced, claimed keys and the forwarding chain only grow.
pub open spec fn group_merge(
    prev: InboundGroupSessionV,
    s: InboundGroupSessionV,
) -> InboundGroupSessionV {
    InboundGroupSessionV {
        session_id: s.session_id,
        sender_key: s.sender_key,
        room_id: s.room_id,
        pickle: s.pickle,
        imported: s.imported,
        claimed_keys: add_missing_pairs(prev.claimed_keys, s.claimed_keys),
        forwarding_chains: add_missing_strings(prev.forwarding_chains, s.forwarding_chains),
    }
}

/// A group session as first stored: its child lists deduplicated by their keys.
pub open spec fn group_base(s: InboundGroupSessionV) -> InboundGroupSessionV {
    InboundGroupSessionV { claimed_keys: Seq::empty(), forwarding_chains: Seq::empty(), ..s }
}

/// What a group-session row holds after a save, over the previous row if any.
pub open spec fn group_saved(
    prev: Option<InboundGroupSessionV>,
    s: InboundGroupSessionV,
) -> InboundGroupSessionV {
    match prev {
        Some(o) => group_merge(o, s),
        None => group_merge(group_base(s), s),
    }
}

/// The group-session row within a row list under (account, session id,
/// sender key), if any.
pub open spec fn found_group_in(
    rows: Seq<GroupSessionRowV>,
    aid: usize,
    sid: Seq<char>,
    sk: Seq<char>,
) -> Option<InboundGroupSessionV> {
    let i = first_where(rows, group_key(aid, sid, sk));
    if i >= 0 {
        Some(rows[i].session)
    } else {
        None
    }
}

/// The group-session row stored under (account, session id, sender key), if
/// any.
pub open spec fn found_group(t: TablesV, aid: usize, sid: Seq<char>, sk: Seq<char>) -> Option<
    InboundGroupSessionV,
> {
    found_group_in(t.group_sessions, aid, sid, sk)
}

/// The stored form of a cross-signing key: the usage list serialized, the
/// key and signature maps as given.
pub open spec fn csk_row_v(k: CrossSigningKeyV) -> CrossSigningKeyRowV {
    CrossSigningKeyRowV {
        usage_json: string_list_json(k.usage),
        keys: k.keys,
        signatures: k.signatures,
    }
}

/// The user row within a row list under (account, user), if any.
pub open spec fn found_user_in(rows: Seq<UserRowV>, aid: usize, u: Seq<char>) -> Option<
    UserRowV,
> {
    let i = first_where(rows, user_key(aid, u));
    if i >= 0 {
        Some(rows[i])
    } else {
        None
    }
}

/// The user row stored under (account, user), if any.
pub open spec fn found_user(t: TablesV, aid: usize, u: Seq<char>) -> Option<UserRowV> {
    found_user_in(t.users, aid, u)
}

/// What a user row holds after an identity save: an own identity replaces
/// every key type and the trust flag, another user's identity replaces master
/// and self-signing only and leaves the rest as it was.
pub open spec fn user_row_saved(
    prev: Option<UserRowV>,
    aid: usize,
    ident: UserIdentitiesV,
) -> UserRowV {
    match ident {
        UserIdentitiesV::Own(o) => UserRowV {
            account_id: aid,
            user_id: o.user_id,
            master_key: csk_row_v(o.master_key),
            self_signing_key: csk_row_v(o.self_signing_key),
            user_signing_key: Some(csk_row_v(o.user_signing_key)),
            trusted: Some(o.verified),
        },
        UserIdentitiesV::Other(o) => UserRowV {
            account_id: aid,
            user_id: o.user_id,
            master_key: csk_row_v(o.master_key),
            self_signing_key: csk_row_v(o.self_signing_key),
            user_signing_key: match prev {
                Some(r) => r.user_signing_key,
                None => None,
            },
            trusted: match prev {
                Some(r) => r.trusted,
                None => None,
            },
        },
    }
}

/// Merge a saved device into its previous row.
pub fn merge_device(prev: &Device, d: &Device) -> (r: Device)
    ensures
        r@ == device_merge(prev@, d@),
{
    let mut algorithms = clone_strings(&prev.algorithms);
    merge_strings(&mut algorithms, &d.algorithms);
    let mut keys = clone_pairs(&prev.keys);
    merge_pairs(&mut keys, &d.keys);
    let mut signatures = clone_triples(&prev.signatures);
    merge_triples(&mut signatures, &d.signatures);
    let r = Device {
        user_id: d.user_id.clone(),
        device_id: d.device_id.clone(),
        display_name: clone_opt_string(&d.display_name),
        trust_state: d.trust_state,
        algorithms,
        keys,
        signatures,
    };
    proof {
        assert(r@ =~= device_merge(prev@, d@));
    }
    r
}

/// A saved device with no previous row.
pub fn device_fresh(d: &Device) -> (r: Device)
    ensures
        r@ == device_saved(None, d@),
{
    let mut algorithms: Vec<String> = Vec::new();
    merge_strings(&mut algorithms, &d.algorithms);
    let mut keys: Vec<(String, String)> = Vec::new();
    merge_pairs(&mut keys, &d.keys);
    let mut signatures: Vec<(String, String, String)> = Vec::new();
    merge_triples(&mut signatures, &d.signatures);
    let r = Device {
        user_id: d.user_id.clone(),
        device_id: d.device_id.clone(),
        display_name: clone_opt_string(&d.display_name),
        trust_state: d.trust_state,
        algorithms,
        keys,
        signatures,
    };
    proof {
        assert(svs(Seq::<String>::empty()) =~= Seq::<Seq<char>>::empty());
        assert(spv(Seq::<(String, String)>::empty()) =~= Seq::<(Seq<char>, Seq<char>)>::empty());
        assert(stv(Seq::<(String, String, String)>::empty()) =~= Seq::<
            (Seq<char>, Seq<char>, Seq<char>),
        >::empty());
        assert(r@ =~= device_saved(None, d@));
    }
    r
}

/// Merge a saved group session into its previous row.
pub fn merge_group(prev: &InboundGroupSession, s: &InboundGroupSession) -> (r:
    InboundGroupSession)
    ensures
        r@ == group_merge(prev@, s@),
{
    let mut claimed_keys = clone_pairs(&prev.claimed_keys);
    merge_pairs(&mut claimed_keys, &s.claimed_keys);
    let mut forwarding_chains = clone_strings(&prev.forwarding_chains);
    merge_strings(&mut forwarding_chains, &s.forwarding_chains);
    let r = InboundGroupSession {
        session_id: s.session_id.clone(),
        sender_key: s.sender_key.clone(),
        room_id: s.room_id.clone(),
        pickle: s.pickle.clone(),
        imported: s.imported,
        claimed_keys,
        forwarding_chains,
    };
    proof {
        assert(r@ =~= group_merge(prev@, s@));
    }
    r
}

/// A saved group session with no previous row.
pub fn group_fresh(s: &InboundGroupSession) -> (r: InboundGroupSession)
    ensures
        r@ == group_saved(None, s@),
{
    let mut claimed_keys: Vec<(String, String)> = Vec::new();
    merge_pairs(&mut claimed_keys, &s.claimed_keys);
    let mut forwarding_chains: Vec<String> = Vec::new();
    merge_strings(&mut forwarding_chains, &s.forwarding_chains);
    let r = InboundGroupSession {
        session_id: s.session_id.clone(),
        sender_key: s.sender_key.clone(),
        room_id: s.room_id.clone(),
        pickle: s.pickle.clone(),
        imported: s.imported,
        claimed_keys,
        forwarding_chains,
    };
    proof {
        assert(svs(Seq::<String>::empty()) =~= Seq::<Seq<char>>::empty());
        assert(spv(Seq::<(String, String)>::empty()) =~= Seq::<(Seq<char>, Seq<char>)>::empty());
        assert(r@ =~= group_saved(None, s@));
    }
    r
}

/// The stored form of a cross-signing key.
pub fn csk_row(k: &CrossSigningKey) -> (r: CrossSigningKeyRow)
    ensures
        r@ == csk_row_v(k@),
{
    let r = CrossSigningKeyRow {
        usage_json: string_list_to_json(&k.usage),
        keys: clone_pairs(&k.keys),
        signatures: clone_triples(&k.signatures),
    };
    proof {
        assert(r@ =~= csk_row_v(k@));
    }
    r
}

impl Tables {
    /// Upsert a device keyed by (account, user, device): display name and
    /// trust state are replaced, capability rows are only added, never
    /// pruned.  The additive-only capability rows are more likely a gap than
    /// a feature: a capability dropped since the previous save stays until
    /// the device itself is deleted.
    #[verifier::loop_isolation(false)]
    pub fn upsert_device(&mut self, aid: usize, d: &Device)
        ensures
            final(self)@ == (TablesV {
                devices: upsert_where(
                    old(self)@.devices,
                    device_key(aid, d@.user_id, d@.device_id),
                    DeviceRowV {
                        account_id: aid,
                        device: device_saved(
                            found_device(old(self)@, aid, d@.user_id, d@.device_id),
                            d@,
                        ),
                    },
                ),
                ..old(self)@
            }),
    {
        let ghost p = device_key(aid, d@.user_id, d@.device_id);
        let ghost orig = self@;
        let mut i: usize = 0;
        let n = self.devices.len();
        while i < n
            invariant
                n == self.devices.len(),
                i <= n,
                *self == *old(self),
                forall|j: int| 0 <= j < i ==> !p(self@.devices[j]),
            decreases n - i,
        {
            if self.devices[i].account_id == aid && str_eq(
                self.devices[i].device.user_id.as_str(),
                d.user_id.as_str(),
            ) && str_eq(self.devices[i].device.device_id.as_str(), d.device_id.as_str()) {
                proof {
                    assert(p(self@.devices[i as int]));
                    lemma_first_where_is(orig.devices, p, i as int);
                }
                let merged = merge_device(&self.devices[i].device, d);
                let ghost rv = DeviceRowV { account_id: aid, device: merged@ };
                let row = DeviceRow { account_id: aid, device: merged };
                self.devices[i] = row;
                proof {
                    assert(device_rows_v(self.devices@) =~= orig.devices.update(i as int, rv));
                    assert(self@ =~= (TablesV {
                        devices: upsert_where(orig.devices, p, rv),
                        ..orig
                    }));
                }
                return ;
            }
            proof {
                assert(!p(self@.devices[i as int]));
            }
            i += 1;
        }
        proof {
            lemma_first_where_none(orig.devices, p);
        }
        let fresh = device_fresh(d);
        let ghost rv = DeviceRowV { account_id: aid, device: fresh@ };
        let row = DeviceRow { account_id: aid, device: fresh };
        self.devices.push(row);
        proof {
            assert(device_rows_v(self.devices@) =~= orig.devices.push(rv));
            assert(self@ =~= (TablesV { devices: upsert_where(orig.devices, p, rv), ..orig }));
        }
    }

    /// Delete the device rows under (account, user, device); their
    /// capability rows go with them.
    #[verifier::loop_isolation(false)]
    pub fn delete_device_rows(&mut self, aid: usize, user_id: &str, device_id: &str)
        ensures
            final(self)@ == (TablesV {
                devices: remove_where(old(self)@.devices, device_key(aid, user_id@, device_id@)),
                ..old(self)@
            }),
    {
        let ghost p = device_key(aid, user_id@, device_id@);
        let ghost orig = self@;
        let ghost q = not_of(p);
        let mut kept: Vec<DeviceRow> = Vec::new();
        let mut i: usize = 0;
        let n = self.devices.len();
        while i < n
            invariant
                n == self.devices.len(),
                i <= n,
                *self == *old(self),
                device_rows_v(kept@) == self@.devices.take(i as int).filter(q),
            decreases n - i,
        {
            proof {
                lemma_filter_take_step(self@.devices, q, i as int);
            }
            if !(self.devices[i].account_id == aid && str_eq(
                self.devices[i].device.user_id.as_str(),
                user_id,
            ) && str_eq(self.devices[i].device.device_id.as_str(), device_id)) {
                proof {
                    assert(q(self@.devices[i as int]));
                }
                let ghost pre = device_rows_v(kept@);
                let row = DeviceRow {
                    account_id: self.devices[i].account_id,
                    device: self.devices[i].device.clone(),
                };
                kept.push(row);
                proof {
                    assert(device_rows_v(kept@) =~= pre.push(self@.devices[i as int]));
                }
            } else {
                proof {
                    assert(!q(self@.devices[i as int]));
                }
            }
            i += 1;
        }
        proof {
            lemma_take_all(self@.devices);
        }
        self.devices = kept;
        proof {
            assert(self@ =~= (TablesV { devices: remove_where(orig.devices, p), ..orig }));
        }
    }

    /// The device stored under (account, user, device), if any, as stored.
    #[verifier::loop_isolation(false)]
    pub fn find_device(&self, aid: usize, user_id: &str, device_id: &str) -> (r: Option<Device>)
        ensures
            ({
                let prev = found_device(self@, aid, user_id@, device_id@);
                match prev {
                    Some(dv) => r matches Some(v) && v@ == dv,
                    None => r is None,
                }
            }),
    {
        let ghost p = device_key(aid, user_id@, device_id@);
        let mut i: usize = 0;
        let n = self.devices.len();
        while i < n
            invariant
                n == self.devices.len(),
                i <= n,
                forall|j: int| 0 <= j < i ==> !p(self@.devices[j]),
            decreases n - i,
        {
            if self.devices[i].account_id == aid && str_eq(
                self.devices[i].device.user_id.as_str(),
                user_id,
            ) && str_eq(self.devices[i].device.device_id.as_str(), device_id) {
                proof {
                    assert(p(self@.devices[i as int]));
                    lemma_first_where_is(self@.devices, p, i as int);
                }
                return Some(self.devices[i].device.clone());
            }
            proof {
                assert(!p(self@.devices[i as int]));
            }
            i += 1;
        }
        proof {
            lemma_first_where_none(self@.devices, p);
        }
        None
    }

    /// All devices stored for (account, user), in table order, as stored.
    #[verifier::loop_isolation(false)]
    pub fn devices_for_user(&self, aid: usize, user_id: &str) -> (r: Vec<Device>)
        ensures
            r@.map_values(|d: Device| d@) == self@.devices.filter(device_for(aid, user_id@))
                .map_values(|row: DeviceRowV| row.device),
    {
        let ghost p = device_for(aid, user_id@);
        let ghost sel = |row: DeviceRowV| row.device;
        let mut r: Vec<Device> = Vec::new();
        let mut i: usize = 0;
        let n = self.devices.len();
        while i < n
            invariant
                n == self.devices.len(),
                i <= n,
                r@.map_values(|d: Device| d@) == self@.devices.take(i as int).filter(p)
                    .map_values(sel),
            decreases n - i,
        {
            proof {
                lemma_filter_take_step(self@.devices, p, i as int);
            }
            if self.devices[i].account_id == aid && str_eq(
                self.devices[i].device.user_id.as_str(),
                user_id,
            ) {
                proof {
                    assert(p(self@.devices[i as int]));
                }
                let ghost pre = r@.map_values(|d: Device| d@);
                r.push(self.devices[i].device.clone());
                proof {
                    assert(r@.map_values(|d: Device| d@) =~= pre.push(
                        self@.devices[i as int].device,
                    ));
                    assert(self@.devices.take(i as int + 1).filter(p).map_values(sel) =~= self@
                        .devices.take(i as int).filter(p).map_values(sel).push(
                        self@.devices[i as int].device,
                    ));
                }
            } else {
                proof {
                    assert(!p(self@.devices[i as int]));
                }
            }
            i += 1;
        }
        proof {
            lemma_take_all(self@.devices);
        }
        r
    }

    /// Upsert a group session keyed by (account, session id, sender key):
    /// the envelope is replaced, claimed keys and forwarding-chain entries
    /// are only added — the chain's growth is monotonic by protocol design.
    #[verifier::loop_isolation(false)]
    pub fn upsert_group_session(&mut self, aid: usize, s: &InboundGroupSession)
        ensures
            final(self)@ == (TablesV {
                group_sessions: upsert_where(
                    old(self)@.group_sessions,
                    group_key(aid, s@.session_id, s@.sender_key),
                    GroupSessionRowV {
                        account_id: aid,
                        session: group_saved(
                            found_group(old(self)@, aid, s@.session_id, s@.sender_key),
                            s@,
                        ),
                    },
                ),
                ..old(self)@
            }),
    {
        let ghost p = group_key(aid, s@.session_id, s@.sender_key);
        let ghost orig = self@;
        let mut i: usize = 0;
        let n = self.group_sessions.len();
        while i < n
            invariant
                n == self.group_sessions.len(),
                i <= n,
                *self == *old(self),
                forall|j: int| 0 <= j < i ==> !p(self@.group_sessions[j]),
            decreases n - i,
        {
            if self.group_sessions[i].account_id == aid && str_eq(
                self.group_sessions[i].session.session_id.as_str(),
                s.session_id.as_str(),
            ) && str_eq(self.group_sessions[i].session.sender_key.as_str(), s.sender_key.as_str())
            {
                proof {
                    assert(p(self@.group_sessions[i as int]));
                    lemma_first_where_is(orig.group_sessions, p, i as int);
                }
                let merged = merge_group(&self.group_sessions[i].session, s);
                let ghost rv = GroupSessionRowV { account_id: aid, session: merged@ };
                let row = GroupSessionRow { account_id: aid, session: merged };
                self.group_sessions[i] = row;
                proof {
                    assert(group_rows_v(self.group_sessions@) =~= orig.group_sessions.update(
                        i as int,
                        rv,
                    ));
                    assert(self@ =~= (TablesV {
                        group_sessions: upsert_where(orig.group_sessions, p, rv),
                        ..orig
                    }));
                }
                return ;
            }
            proof {
                assert(!p(self@.group_sessions[i as int]));
            }
            i += 1;
        }
        proof {
            lemma_first_where_none(orig.group_sessions, p);
        }
        let fresh = group_fresh(s);
        let ghost rv = GroupSessionRowV { account_id: aid, session: fresh@ };
        let row = GroupSessionRow { account_id: aid, session: fresh };
        self.group_sessions.push(row);
        proof {
            assert(group_rows_v(self.group_sessions@) =~= orig.group_sessions.push(rv));
            assert(self@ =~= (TablesV {
                group_sessions: upsert_where(orig.group_sessions, p, rv),
                ..orig
            }));
        }
    }

    /// The group session stored under (account, room, sender key, session
    /// id), if any, as stored: a row under the right (session id, sender
    /// key) but another room is not returned.
    #[verifier::loop_isolation(false)]
    pub fn find_group_session(
        &self,
        aid: usize,
        room_id: &str,
        sender_key: &str,
        session_id: &str,
    ) -> (r: Option<InboundGroupSession>)
        ensures
            ({
                let prev = found_group(self@, aid, session_id@, sender_key@);
                match prev {
                    Some(sv) => if sv.room_id == room_id@ {
                        r matches Some(v) && v@ == sv
                    } else {
                        r is None
                    },
                    None => r is None,
                }
            }),
    {
        let ghost p = group_key(aid, session_id@, sender_key@);
        let mut i: usize = 0;
        let n = self.group_sessions.len();
        while i < n
            invariant
                n == self.group_sessions.len(),
                i <= n,
                forall|j: int| 0 <= j < i ==> !p(self@.group_sessions[j]),
            decreases n - i,
        {
            if self.group_sessions[i].account_id == aid && str_eq(
                self.group_sessions[i].session.session_id.as_str(),
                session_id,
            ) && str_eq(self.group_sessions[i].session.sender_key.as_str(), sender_key) {
                proof {
                    assert(p(self@.group_sessions[i as int]));
                    lemma_first_where_is(self@.group_sessions, p, i as int);
                }
                if str_eq(self.group_sessions[i].session.room_id.as_str(), room_id) {
                    return Some(self.group_sessions[i].session.clone());
                } else {
                    return None;
                }
            }
            proof {
                assert(!p(self@.group_sessions[i as int]));
            }
            i += 1;
        }
        proof {
            lemma_first_where_none(self@.group_sessions, p);
        }
        None
    }

    /// All group sessions stored for this account, in table order, as
    /// stored.
    #[verifier::loop_isolation(false)]
    pub fn group_sessions_for_account(&self, aid: usize) -> (r: Vec<InboundGroupSession>)
        ensures
            r@.map_values(|s: InboundGroupSession| s@) == self@.group_sessions.filter(
                group_for(aid),
            ).map_values(|row: GroupSessionRowV| row.session),
    {
        let ghost p = group_for(aid);
        let ghost sel = |row: GroupSessionRowV| row.session;
        let mut r: Vec<InboundGroupSession> = Vec::new();
        let mut i: usize = 0;
        let n = self.group_sessions.len();
        while i < n
            invariant
                n == self.group_sessions.len(),
                i <= n,
                r@.map_values(|s: InboundGroupSession| s@) == self@.group_sessions.take(
                    i as int,
                ).filter(p).map_values(sel),
            decreases n - i,
        {
            proof {
                lemma_filter_take_step(self@.group_sessions, p, i as int);
            }
            if self.group_sessions[i].account_id == aid {
                proof {
                    assert(p(self@.group_sessions[i as int]));
                }
                let ghost pre = r@.map_values(|s: InboundGroupSession| s@);
                r.push(self.group_sessions[i].session.clone());
                proof {
                    assert(r@.map_values(|s: InboundGroupSession| s@) =~= pre.push(
                        self@.group_sessions[i as int].session,
                    ));
                    assert(self@.group_sessions.take(i as int + 1).filter(p).map_values(sel)
                        =~= self@.group_sessions.take(i as int).filter(p).map_values(sel).push(
                        self@.group_sessions[i as int].session,
                    ));
                }
            } else {
                proof {
                    assert(!p(self@.group_sessions[i as int]));
                }
            }
            i += 1;
        }
        proof {
            lemma_take_all(self@.group_sessions);
        }
        r
    }

    /// Upsert a user's cross-signing rows keyed by (account, user): an own
    /// identity replaces all three key types and the trust flag, another
    /// user's identity replaces master and self-signing only.
    #[verifier::loop_isolation(false)]
    pub fn upsert_user(&mut self, aid: usize, ident: &UserIdentities)
        ensures
            final(self)@ == (TablesV {
                users: upsert_where(
                    old(self)@.users,
                    user_key(aid, ident.spec_user_id()),
                    user_row_saved(
                        found_user(old(self)@, aid, ident.spec_user_id()),
                        aid,
                        ident@,
                    ),
                ),
                ..old(self)@
            }),
    {
        let ghost p = user_key(aid, ident.spec_user_id());
        let ghost orig = self@;
        let uid = ident.user_id();
        let mut i: usize = 0;
        let n = self.users.len();
        while i < n
            invariant
                n == self.users.len(),
                i <= n,
                *self == *old(self),
                forall|j: int| 0 <= j < i ==> !p(self@.users[j]),
            decreases n - i,
        {
            if self.users[i].account_id == aid && str_eq(self.users[i].user_id.as_str(), uid.as_str()) {
                proof {
                    assert(p(self@.users[i as int]));
                    lemma_first_where_is(orig.users, p, i as int);
                }
                let row = match ident {
                    UserIdentities::Own(o) => UserRow {
                        account_id: aid,
                        user_id: o.user_id.clone(),
                        master_key: csk_row(&o.master_key),
                        self_signing_key: csk_row(&o.self_signing_key),
                        user_signing_key: Some(csk_row(&o.user_signing_key)),
                        trusted: Some(o.verified),
                    },
                    UserIdentities::Other(o) => UserRow {
                        account_id: aid,
                        user_id: o.user_id.clone(),
                        master_key: csk_row(&o.master_key),
                        self_signing_key: csk_row(&o.self_signing_key),
                        user_signing_key: match &self.users[i].user_signing_key {
                            Some(k) => Some(k.clone()),
                            None => None,
                        },
                        trusted: self.users[i].trusted,
                    },
                };
                let ghost rv = row@;
                proof {
                    assert(rv =~= user_row_saved(found_user(orig, aid, ident.spec_user_id()), aid, ident@));
                }
                self.users[i] = row;
                proof {
                    assert(user_rows_v(self.users@) =~= orig.users.update(i as int, rv));
                    assert(self@ =~= (TablesV {
                        users: upsert_where(orig.users, p, rv),
                        ..orig
                    }));
                }
                return ;
            }
            proof {
                assert(!p(self@.users[i as int]));
            }
            i += 1;
        }
        proof {
            lemma_first_where_none(orig.users, p);
        }
        let row = match ident {
            UserIdentities::Own(o) => UserRow {
                account_id: aid,
                user_id: o.user_id.clone(),
                master_key: csk_row(&o.master_key),
                self_signing_key: csk_row(&o.self_signing_key),
                user_signing_key: Some(csk_row(&o.user_signing_key)),
                trusted: Some(o.verified),
            },
            UserIdentities::Other(o) => UserRow {
                account_id: aid,
                user_id: o.user_id.clone(),
                master_key: csk_row(&o.master_key),
                self_signing_key: csk_row(&o.self_signing_key),
                user_signing_key: None,
                trusted: None,
            },
        };
        let ghost rv = row@;
        proof {
            assert(rv =~= user_row_saved(found_user(orig, aid, ident.spec_user_id()), aid, ident@));
        }
        self.users.push(row);
        proof {
            assert(user_rows_v(self.users@) =~= orig.users.push(rv));
            assert(self@ =~= (TablesV { users: upsert_where(orig.users, p, rv), ..orig }));
        }
    }

    /// The user row stored under (account, user), if any, as stored.
    #[verifier::loop_isolation(false)]
    pub fn find_user_row(&self, aid: usize, user_id: &str) -> (r: Option<UserRow>)
        ensures
            ({
                let prev = found_user(self@, aid, user_id@);
                match prev {
                    Some(rv) => r matches Some(v) && v@ == rv,
                    None => r is None,
                }
            }),
    {
        let ghost p = user_key(aid, user_id@);
        let mut i: usize = 0;
        let n = self.users.len();
        while i < n
            invariant
                n == self.users.len(),
                i <= n,
                forall|j: int| 0 <= j < i ==> !p(self@.users[j]),
            decreases n - i,
        {
            if self.users[i].account_id == aid && str_eq(self.users[i].user_id.as_str(), user_id) {
                proof {
                    assert(p(self@.users[i as int]));
                    lemma_first_where_is(self@.users, p, i as int);
                }
                return Some(self.users[i].clone());
            }
            proof {
                assert(!p(self@.users[i as int]));
            }
            i += 1;
        }
        proof {
            lemma_first_where_none(self@.users, p);
        }
        None
    }
}


// ------------------------------------------------- key uniqueness

/// The key of an account row.
pub open spec fn acct_row_key() -> spec_fn(AccountV) -> (Seq<char>, Seq<char>) {
    |a: AccountV| (a.user_id, a.device_id)
}

/// The key of a private-identity row.
pub open spec fn priv_row_key() -> spec_fn(PrivateIdentityRowV) -> (usize, Seq<char>) {
    |r: PrivateIdentityRowV| (r.account_id, r.identity.user_id)
}

/// The key of a pickle-key row.
pub open spec fn pk_row_key() -> spec_fn(PickleKeyRowV) -> (Seq<char>, Seq<char>) {
    |r: PickleKeyRowV| (r.user_id, r.device_id)
}

/// The key of a session row.
pub open spec fn sess_row_key() -> spec_fn(SessionRowV) -> Seq<char> {
    |r: SessionRowV| r.session_id
}

/// The key of a tracked-user row.
pub open spec fn tracked_row_key() -> spec_fn(TrackedUserRowV) -> (usize, Seq<char>) {
    |r: TrackedUserRowV| (r.account_id, r.user_id)
}

/// The key of a group-session row.
pub open spec fn group_row_key() -> spec_fn(GroupSessionRowV) -> (usize, Seq<char>, Seq<char>) {
    |r: GroupSessionRowV| (r.account_id, r.session.session_id, r.session.sender_key)
}

/// The key of a device row.
pub open spec fn device_row_key() -> spec_fn(DeviceRowV) -> (usize, Seq<char>, Seq<char>) {
    |r: DeviceRowV| (r.account_id, r.device.user_id, r.device.device_id)
}

/// The key of a user row.
pub open spec fn user_row_key() -> spec_fn(UserRowV) -> (usize, Seq<char>) {
    |r: UserRowV| (r.account_id, r.user_id)
}

/// The key of a setting row.
pub open spec fn kv_row_key() -> spec_fn(KeyValueRowV) -> (usize, Seq<char>) {
    |r: KeyValueRowV| (r.account_id, r.key)
}

/// The key of a replay-hash row.
pub open spec fn hash_row_key() -> spec_fn(OlmHashRowV) -> (usize, Seq<char>, Seq<char>) {
    |r: OlmHashRowV| (r.account_id, r.sender_key, r.hash)
}

/// Well-formedness of the row image: the schema's UNIQUE keys hold — one
/// account row per (user, device), one session row per id, one row per key
/// in every other table.  A fresh image has it, and every mutation keeps it
/// (see the uniqueness laws in [`crate::laws`]).
pub open spec fn tables_wf(t: TablesV) -> bool {
    &&& unique_by(t.accounts, acct_row_key())
    &&& unique_by(t.private_identities, priv_row_key())
    &&& unique_by(t.pickle_keys, pk_row_key())
    &&& unique_by(t.sessions, sess_row_key())
    &&& unique_by(t.tracked_users, tracked_row_key())
    &&& unique_by(t.group_sessions, group_row_key())
    &&& unique_by(t.devices, device_row_key())
    &&& unique_by(t.users, user_row_key())
    &&& unique_by(t.key_values, kv_row_key())
    &&& unique_by(t.olm_hashes, hash_row_key())
}


} // verus!
