//! The domain records that flow in and out of the store, and their
//! specification-level views.
//!
//! Pickles are opaque text: the store never looks inside them, it only indexes
//! the envelope fields (identifiers, sender keys, timestamps, room
//! association) that stand beside them here as plain values.

use vstd::prelude::*;

verus! {

/// Errors surfaced by the store.
#[derive(Clone, Copy, Debug, PartialEq, Eq, Structural)]
pub enum StoreError {
    /// A per-account operation ran before an account was saved or loaded.
    AccountUnset,
    /// A stored pickle-key record could not be opened with the given
    /// passphrase: wrong passphrase or corrupt record.
    UnpicklingError,
    /// A stored structured field could not be decoded.  Bulk list loads
    /// never surface this: a malformed row there is skipped as a recoverable
    /// per-row fault.
    SerializationError,
    /// A stored identity row set was internally inconsistent: the store must
    /// not silently hand back a malformed identity.
    InconsistentIdentity,
}

/// A duration as stored beside a session row: whole seconds and the
/// subsecond nanoseconds.
#[derive(Clone, Copy, Debug, PartialEq, Eq, Structural)]
pub struct Dur {
    pub secs: u64,
    pub nanos: u32,
}

/// The public identity keys of an account, kept as envelope fields so the
/// registry can cache them without opening the account pickle.
pub struct IdentityKeys {
    pub curve25519: String,
    pub ed25519: String,
}

#[verifier::ext_equal]
pub ghost struct IdentityKeysV {
    pub curve25519: Seq<char>,
    pub ed25519: Seq<char>,
}

impl View for IdentityKeys {
    type V = IdentityKeysV;

    open spec fn view(&self) -> IdentityKeysV {
        IdentityKeysV { curve25519: self.curve25519@, ed25519: self.ed25519@ }
    }
}

impl Clone for IdentityKeys {
    fn clone(&self) -> (r: Self)
        ensures
            r@ == self@,
    {
        IdentityKeys { curve25519: self.curve25519.clone(), ed25519: self.ed25519.clone() }
    }
}

/// The one local account: its identity, an opaque pickle of its ratchet
/// state, and the upload bookkeeping the sync layer needs.
pub struct Account {
    pub user_id: String,
    pub device_id: String,
    pub identity_keys: IdentityKeys,
    pub pickle: String,
    pub shared: bool,
    pub uploaded_key_count: u64,
}

#[verifier::ext_equal]
pub ghost struct AccountV {
    pub user_id: Seq<char>,
    pub device_id: Seq<char>,
    pub identity_keys: IdentityKeysV,
    pub pickle: Seq<char>,
    pub shared: bool,
    pub uploaded_key_count: u64,
}

impl View for Account {
    type V = AccountV;

    open spec fn view(&self) -> AccountV {
        AccountV {
            user_id: self.user_id@,
            device_id: self.device_id@,
            identity_keys: self.identity_keys@,
            pickle: self.pickle@,
            shared: self.shared,
            uploaded_key_count: self.uploaded_key_count,
        }
    }
}

impl Clone for Account {
    fn clone(&self) -> (r: Self)
        ensures
            r@ == self@,
    {
        Account {
            user_id: self.user_id.clone(),
            device_id: self.device_id.clone(),
            identity_keys: self.identity_keys.clone(),
            pickle: self.pickle.clone(),
            shared: self.shared,
            uploaded_key_count: self.uploaded_key_count,
        }
    }
}

/// A pairwise ratchet session: an opaque pickle indexed by its globally
/// unique id, the sender's identity key, and its two timestamps.
pub struct Session {
    pub session_id: String,
    pub sender_key: String,
    pub creation_time: Dur,
    pub last_use_time: Dur,
    pub pickle: String,
}

#[verifier::ext_equal]
pub ghost struct SessionV {
    pub session_id: Seq<char>,
    pub sender_key: Seq<char>,
    pub creation_time: Dur,
    pub last_use_time: Dur,
    pub pickle: Seq<char>,
}

impl View for Session {
    type V = SessionV;

    open spec fn view(&self) -> SessionV {
        SessionV {
            session_id: self.session_id@,
            sender_key: self.sender_key@,
            creation_time: self.creation_time,
            last_use_time: self.last_use_time,
            pickle: self.pickle@,
        }
    }
}

impl Clone for Session {
    fn clone(&self) -> (r: Self)
        ensures
            r@ == self@,
    {
        Session {
            session_id: self.session_id.clone(),
            sender_key: self.sender_key.clone(),
            creation_time: self.creation_time,
            last_use_time: self.last_use_time,
            pickle: self.pickle.clone(),
        }
    }
}

/// Compare two string slices by their contents.
pub fn str_eq(a: &str, b: &str) -> (r: bool)
    ensures
        r == (a@ == b@),
{
    let x = a.to_owned();
    let y = b.to_owned();
    x == y
}

/// View of a sequence of strings.
pub open spec fn svs(s: Seq<String>) -> Seq<Seq<char>> {
    s.map_values(|x: String| x@)
}

/// View of a sequence of string pairs.
pub open spec fn spv(s: Seq<(String, String)>) -> Seq<(Seq<char>, Seq<char>)> {
    s.map_values(|x: (String, String)| (x.0@, x.1@))
}

/// View of a sequence of string triples.
pub open spec fn stv(s: Seq<(String, String, String)>) -> Seq<(Seq<char>, Seq<char>, Seq<char>)> {
    s.map_values(|x: (String, String, String)| (x.0@, x.1@, x.2@))
}

/// Copy a vector of strings, preserving its contents.
pub fn clone_strings(v: &Vec<String>) -> (r: Vec<String>)
    ensures
        svs(r@) == svs(v@),
{
    let mut r: Vec<String> = Vec::new();
    let mut i: usize = 0;
    while i < v.len()
        invariant
            i <= v.len(),
            r@.len() == i,
            svs(r@) =~= svs(v@).take(i as int),
        decreases v.len() - i,
    {
        r.push(v[i].clone());
        proof {
            assert forall|j: int| 0 <= j < i + 1 implies svs(r@)[j] == svs(v@).take(
                i as int + 1,
            )[j] by {
                assert(svs(r@)[j] == r@[j]@);
                assert(svs(v@).take(i as int + 1)[j] == v@[j]@);
            }
            assert(svs(r@) =~= svs(v@).take(i as int + 1));
        }
        i += 1;
    }
    proof {
        assert(svs(v@).take(v@.len() as int) =~= svs(v@));
    }
    r
}

/// Copy a vector of string pairs, preserving its contents.
pub fn clone_pairs(v: &Vec<(String, String)>) -> (r: Vec<(String, String)>)
    ensures
        spv(r@) == spv(v@),
{
    let mut r: Vec<(String, String)> = Vec::new();
    let mut i: usize = 0;
    while i < v.len()
        invariant
            i <= v.len(),
            r@.len() == i,
            spv(r@) =~= spv(v@).take(i as int),
        decreases v.len() - i,
    {
        let p = (v[i].0.clone(), v[i].1.clone());
        r.push(p);
        proof {
            assert forall|j: int| 0 <= j < i + 1 implies spv(r@)[j] == spv(v@).take(
                i as int + 1,
            )[j] by {
                assert(spv(r@)[j] == (r@[j].0@, r@[j].1@));
                assert(spv(v@).take(i as int + 1)[j] == (v@[j].0@, v@[j].1@));
            }
            assert(spv(r@) =~= spv(v@).take(i as int + 1));
        }
        i += 1;
    }
    proof {
        assert(spv(v@).take(v@.len() as int) =~= spv(v@));
    }
    r
}

/// Copy a vector of string triples, preserving its contents.
pub fn clone_triples(v: &Vec<(String, String, String)>) -> (r: Vec<(String, String, String)>)
    ensures
        stv(r@) == stv(v@),
{
    let mut r: Vec<(String, String, String)> = Vec::new();
    let mut i: usize = 0;
    while i < v.len()
        invariant
            i <= v.len(),
            r@.len() == i,
            stv(r@) =~= stv(v@).take(i as int),
        decreases v.len() - i,
    {
        let p = (v[i].0.clone(), v[i].1.clone(), v[i].2.clone());
        r.push(p);
        proof {
            assert forall|j: int| 0 <= j < i + 1 implies stv(r@)[j] == stv(v@).take(
                i as int + 1,
            )[j] by {
                assert(stv(r@)[j] == (r@[j].0@, r@[j].1@, r@[j].2@));
                assert(stv(v@).take(i as int + 1)[j] == (v@[j].0@, v@[j].1@, v@[j].2@));
            }
            assert(stv(r@) =~= stv(v@).take(i as int + 1));
        }
        i += 1;
    }
    proof {
        assert(stv(v@).take(v@.len() as int) =~= stv(v@));
    }
    r
}

/// Copy an optional string.
pub fn clone_opt_string(v: &Option<String>) -> (r: Option<String>)
    ensures
        match v {
            Some(s) => r matches Some(t) && t@ == s@,
            None => r is None,
        },
{
    match v {
        Some(s) => Some(s.clone()),
        None => None,
    }
}

/// A group-decryption session: the opaque pickle with its envelope, the
/// signing keys the sender claimed when it was established, and the
/// forwarding provenance chain (empty chain: locally originated).
pub struct InboundGroupSession {
    pub session_id: String,
    pub sender_key: String,
    pub room_id: String,
    pub pickle: String,
    pub imported: bool,
    /// Claimed signing keys, one `(algorithm, key)` pair per algorithm.
    pub claimed_keys: Vec<(String, String)>,
    /// Ordered forwarding chain; grows monotonically, entries are unique.
    pub forwarding_chains: Vec<String>,
}

#[verifier::ext_equal]
pub ghost struct InboundGroupSessionV {
    pub session_id: Seq<char>,
    pub sender_key: Seq<char>,
    pub room_id: Seq<char>,
    pub pickle: Seq<char>,
    pub imported: bool,
    pub claimed_keys: Seq<(Seq<char>, Seq<char>)>,
    pub forwarding_chains: Seq<Seq<char>>,
}

impl View for InboundGroupSession {
    type V = InboundGroupSessionV;

    open spec fn view(&self) -> InboundGroupSessionV {
        InboundGroupSessionV {
            session_id: self.session_id@,
            sender_key: self.sender_key@,
            room_id: self.room_id@,
            pickle: self.pickle@,
            imported: self.imported,
            claimed_keys: spv(self.claimed_keys@),
            forwarding_chains: svs(self.forwarding_chains@),
        }
    }
}

impl Clone for InboundGroupSession {
    fn clone(&self) -> (r: Self)
        ensures
            r@ == self@,
    {
        InboundGroupSession {
            session_id: self.session_id.clone(),
            sender_key: self.sender_key.clone(),
            room_id: self.room_id.clone(),
            pickle: self.pickle.clone(),
            imported: self.imported,
            claimed_keys: clone_pairs(&self.claimed_keys),
            forwarding_chains: clone_strings(&self.forwarding_chains),
        }
    }
}

/// The local trust state recorded for a device.
#[derive(Clone, Copy, Debug, PartialEq, Eq, Structural)]
pub enum LocalTrust {
    Verified,
    BlackListed,
    Ignored,
    Unset,
}

/// A device identity: display data, trust state, and its capability rows.
pub struct Device {
    pub user_id: String,
    pub device_id: String,
    pub display_name: Option<String>,
    pub trust_state: LocalTrust,
    /// Supported event-encryption algorithms, unique.
    pub algorithms: Vec<String>,
    /// Device keys, one `(key algorithm, key)` pair per algorithm.
    pub keys: Vec<(String, String)>,
    /// Signatures, one `(signer user, key algorithm, signature)` triple per
    /// `(signer user, key algorithm)` pair.
    pub signatures: Vec<(String, String, String)>,
}

#[verifier::ext_equal]
pub ghost struct DeviceV {
    pub user_id: Seq<char>,
    pub device_id: Seq<char>,
    pub display_name: Option<Seq<char>>,
    pub trust_state: LocalTrust,
    pub algorithms: Seq<Seq<char>>,
    pub keys: Seq<(Seq<char>, Seq<char>)>,
    pub signatures: Seq<(Seq<char>, Seq<char>, Seq<char>)>,
}

/// View of an optional string.
pub open spec fn osv(s: Option<String>) -> Option<Seq<char>> {
    match s {
        Some(x) => Some(x@),
        None => None,
    }
}

impl View for Device {
    type V = DeviceV;

    open spec fn view(&self) -> DeviceV {
        DeviceV {
            user_id: self.user_id@,
            device_id: self.device_id@,
            display_name: osv(self.display_name),
            trust_state: self.trust_state,
            algorithms: svs(self.algorithms@),
            keys: spv(self.keys@),
            signatures: stv(self.signatures@),
        }
    }
}

impl Clone for Device {
    fn clone(&self) -> (r: Self)
        ensures
            r@ == self@,
    {
        Device {
            user_id: self.user_id.clone(),
            device_id: self.device_id.clone(),
            display_name: clone_opt_string(&self.display_name),
            trust_state: self.trust_state,
            algorithms: clone_strings(&self.algorithms),
            keys: clone_pairs(&self.keys),
            signatures: clone_triples(&self.signatures),
        }
    }
}

/// One cross-signing key of a user's hierarchy: its usage tags, the key map,
/// and the signatures over it.
pub struct CrossSigningKey {
    pub user_id: String,
    pub usage: Vec<String>,
    /// One `(key id, key)` pair per key id.
    pub keys: Vec<(String, String)>,
    /// One `(signer user, key id, signature)` triple per `(signer, key id)`.
    pub signatures: Vec<(String, String, String)>,
}

#[verifier::ext_equal]
pub ghost struct CrossSigningKeyV {
    pub user_id: Seq<char>,
    pub usage: Seq<Seq<char>>,
    pub keys: Seq<(Seq<char>, Seq<char>)>,
    pub signatures: Seq<(Seq<char>, Seq<char>, Seq<char>)>,
}

impl View for CrossSigningKey {
    type V = CrossSigningKeyV;

    open spec fn view(&self) -> CrossSigningKeyV {
        CrossSigningKeyV {
            user_id: self.user_id@,
            usage: svs(self.usage@),
            keys: spv(self.keys@),
            signatures: stv(self.signatures@),
        }
    }
}

impl Clone for CrossSigningKey {
    fn clone(&self) -> (r: Self)
        ensures
            r@ == self@,
    {
        CrossSigningKey {
            user_id: self.user_id.clone(),
            usage: clone_strings(&self.usage),
            keys: clone_pairs(&self.keys),
            signatures: clone_triples(&self.signatures),
        }
    }
}

/// The local user's own cross-signing identity: the full hierarchy and the
/// local trust flag.
pub struct OwnIdentity {
    pub user_id: String,
    pub master_key: CrossSigningKey,
    pub self_signing_key: CrossSigningKey,
    pub user_signing_key: CrossSigningKey,
    pub verified: bool,
}

#[verifier::ext_equal]
pub ghost struct OwnIdentityV {
    pub user_id: Seq<char>,
    pub master_key: CrossSigningKeyV,
    pub self_signing_key: CrossSigningKeyV,
    pub user_signing_key: CrossSigningKeyV,
    pub verified: bool,
}

impl View for OwnIdentity {
    type V = OwnIdentityV;

    open spec fn view(&self) -> OwnIdentityV {
        OwnIdentityV {
            user_id: self.user_id@,
            master_key: self.master_key@,
            self_signing_key: self.self_signing_key@,
            user_signing_key: self.user_signing_key@,
            verified: self.verified,
        }
    }
}

impl Clone for OwnIdentity {
    fn clone(&self) -> (r: Self)
        ensures
            r@ == self@,
    {
        OwnIdentity {
            user_id: self.user_id.clone(),
            master_key: self.master_key.clone(),
            self_signing_key: self.self_signing_key.clone(),
            user_signing_key: self.user_signing_key.clone(),
            verified: self.verified,
        }
    }
}

/// Another user's cross-signing identity: master and self-signing keys only.
pub struct OtherIdentity {
    pub user_id: String,
    pub master_key: CrossSigningKey,
    pub self_signing_key: CrossSigningKey,
}

#[verifier::ext_equal]
pub ghost struct OtherIdentityV {
    pub user_id: Seq<char>,
    pub master_key: CrossSigningKeyV,
    pub self_signing_key: CrossSigningKeyV,
}

impl View for OtherIdentity {
    type V = OtherIdentityV;

    open spec fn view(&self) -> OtherIdentityV {
        OtherIdentityV {
            user_id: self.user_id@,
            master_key: self.master_key@,
            self_signing_key: self.self_signing_key@,
        }
    }
}

impl Clone for OtherIdentity {
    fn clone(&self) -> (r: Self)
        ensures
            r@ == self@,
    {
        OtherIdentity {
            user_id: self.user_id.clone(),
            master_key: self.master_key.clone(),
            self_signing_key: self.self_signing_key.clone(),
        }
    }
}

/// A user identity as handed in and out of the store.
pub enum UserIdentities {
    Own(OwnIdentity),
    Other(OtherIdentity),
}

#[verifier::ext_equal]
pub ghost enum UserIdentitiesV {
    Own(OwnIdentityV),
    Other(OtherIdentityV),
}

impl View for UserIdentities {
    type V = UserIdentitiesV;

    open spec fn view(&self) -> UserIdentitiesV {
        match self {
            UserIdentities::Own(i) => UserIdentitiesV::Own(i@),
            UserIdentities::Other(i) => UserIdentitiesV::Other(i@),
        }
    }
}

/// The user a user-identity view belongs to.
pub open spec fn idv_user(i: UserIdentitiesV) -> Seq<char> {
    match i {
        UserIdentitiesV::Own(o) => o.user_id,
        UserIdentitiesV::Other(o) => o.user_id,
    }
}

impl UserIdentities {
    /// The user this identity belongs to.
    pub open spec fn spec_user_id(&self) -> Seq<char> {
        idv_user(self@)
    }

    /// The user this identity belongs to.
    pub fn user_id(&self) -> (r: &String)
        ensures
            r@ == self.spec_user_id(),
    {
        match self {
            UserIdentities::Own(i) => &i.user_id,
            UserIdentities::Other(i) => &i.user_id,
        }
    }
}

impl Clone for UserIdentities {
    fn clone(&self) -> (r: Self)
        ensures
            r@ == self@,
    {
        match self {
            UserIdentities::Own(i) => UserIdentities::Own(i.clone()),
            UserIdentities::Other(i) => UserIdentities::Other(i.clone()),
        }
    }
}

/// The private cross-signing material, as an opaque pickle.
pub struct PrivateIdentity {
    pub user_id: String,
    pub pickle: String,
    pub shared: bool,
}

#[verifier::ext_equal]
pub ghost struct PrivateIdentityV {
    pub user_id: Seq<char>,
    pub pickle: Seq<char>,
    pub shared: bool,
}

impl View for PrivateIdentity {
    type V = PrivateIdentityV;

    open spec fn view(&self) -> PrivateIdentityV {
        PrivateIdentityV { user_id: self.user_id@, pickle: self.pickle@, shared: self.shared }
    }
}

impl Clone for PrivateIdentity {
    fn clone(&self) -> (r: Self)
        ensures
            r@ == self@,
    {
        PrivateIdentity {
            user_id: self.user_id.clone(),
            pickle: self.pickle.clone(),
            shared: self.shared,
        }
    }
}

/// A replay-protection record: the hash of a received message with the
/// sender key it came from.
pub struct OlmMessageHash {
    pub sender_key: String,
    pub hash: String,
}

#[verifier::ext_equal]
pub ghost struct OlmMessageHashV {
    pub sender_key: Seq<char>,
    pub hash: Seq<char>,
}

impl View for OlmMessageHash {
    type V = OlmMessageHashV;

    open spec fn view(&self) -> OlmMessageHashV {
        OlmMessageHashV { sender_key: self.sender_key@, hash: self.hash@ }
    }
}

impl Clone for OlmMessageHash {
    fn clone(&self) -> (r: Self)
        ensures
            r@ == self@,
    {
        OlmMessageHash { sender_key: self.sender_key.clone(), hash: self.hash.clone() }
    }
}

/// The device part of a changeset.
pub struct DeviceChanges {
    pub new: Vec<Device>,
    pub changed: Vec<Device>,
    pub deleted: Vec<Device>,
}

/// The identity part of a changeset.
pub struct IdentityChanges {
    pub new: Vec<UserIdentities>,
    pub changed: Vec<UserIdentities>,
}

/// A heterogeneous batch of changes, applied atomically in a fixed order.
pub struct Changes {
    pub account: Option<Account>,
    pub private_identity: Option<PrivateIdentity>,
    pub sessions: Vec<Session>,
    pub inbound_group_sessions: Vec<InboundGroupSession>,
    pub devices: DeviceChanges,
    pub identities: IdentityChanges,
    pub message_hashes: Vec<OlmMessageHash>,
}

#[verifier::ext_equal]
pub ghost struct DeviceChangesV {
    pub new: Seq<DeviceV>,
    pub changed: Seq<DeviceV>,
    pub deleted: Seq<DeviceV>,
}

impl View for DeviceChanges {
    type V = DeviceChangesV;

    open spec fn view(&self) -> DeviceChangesV {
        DeviceChangesV {
            new: self.new@.map_values(|d: Device| d@),
            changed: self.changed@.map_values(|d: Device| d@),
            deleted: self.deleted@.map_values(|d: Device| d@),
        }
    }
}

#[verifier::ext_equal]
pub ghost struct IdentityChangesV {
    pub new: Seq<UserIdentitiesV>,
    pub changed: Seq<UserIdentitiesV>,
}

impl View for IdentityChanges {
    type V = IdentityChangesV;

    open spec fn view(&self) -> IdentityChangesV {
        IdentityChangesV {
            new: self.new@.map_values(|i: UserIdentities| i@),
            changed: self.changed@.map_values(|i: UserIdentities| i@),
        }
    }
}

#[verifier::ext_equal]
pub ghost struct ChangesV {
    pub account: Option<AccountV>,
    pub private_identity: Option<PrivateIdentityV>,
    pub sessions: Seq<SessionV>,
    pub inbound_group_sessions: Seq<InboundGroupSessionV>,
    pub devices: DeviceChangesV,
    pub identities: IdentityChangesV,
    pub message_hashes: Seq<OlmMessageHashV>,
}

impl View for Changes {
    type V = ChangesV;

    open spec fn view(&self) -> ChangesV {
        ChangesV {
            account: match &self.account {
                Some(a) => Some(a@),
                None => None,
            },
            private_identity: match &self.private_identity {
                Some(p) => Some(p@),
                None => None,
            },
            sessions: self.sessions@.map_values(|s: Session| s@),
            inbound_group_sessions: self.inbound_group_sessions@.map_values(
                |s: InboundGroupSession| s@,
            ),
            devices: self.devices@,
            identities: self.identities@,
            message_hashes: self.message_hashes@.map_values(|h: OlmMessageHash| h@),
        }
    }
}

impl DeviceChanges {
    /// A device changeset with nothing in it.
    pub fn empty() -> (r: Self)
        ensures
            r.new@ =~= Seq::<Device>::empty(),
            r.changed@ =~= Seq::<Device>::empty(),
            r.deleted@ =~= Seq::<Device>::empty(),
    {
        DeviceChanges { new: Vec::new(), changed: Vec::new(), deleted: Vec::new() }
    }
}

impl IdentityChanges {
    /// An identity changeset with nothing in it.
    pub fn empty() -> (r: Self)
        ensures
            r.new@ =~= Seq::<UserIdentities>::empty(),
            r.changed@ =~= Seq::<UserIdentities>::empty(),
    {
        IdentityChanges { new: Vec::new(), changed: Vec::new() }
    }
}

impl Changes {
    /// A changeset with nothing in it.
    pub fn empty() -> (r: Self)
        ensures
            r.account is None,
            r.private_identity is None,
            r.sessions@ =~= Seq::<Session>::empty(),
            r.inbound_group_sessions@ =~= Seq::<InboundGroupSession>::empty(),
            r.devices.new@ =~= Seq::<Device>::empty(),
            r.devices.changed@ =~= Seq::<Device>::empty(),
            r.devices.deleted@ =~= Seq::<Device>::empty(),
            r.identities.new@ =~= Seq::<UserIdentities>::empty(),
            r.identities.changed@ =~= Seq::<UserIdentities>::empty(),
            r.message_hashes@ =~= Seq::<OlmMessageHash>::empty(),
    {
        Changes {
            account: None,
            private_identity: None,
            sessions: Vec::new(),
            inbound_group_sessions: Vec::new(),
            devices: DeviceChanges::empty(),
            identities: IdentityChanges::empty(),
            message_hashes: Vec::new(),
        }
    }
}

} // verus!
