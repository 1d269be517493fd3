use crypto_store::records::{
    Account, Changes, CrossSigningKey, Device, DeviceChanges, Dur, IdentityChanges, IdentityKeys,
    InboundGroupSession, LocalTrust, OlmMessageHash, OtherIdentity, OwnIdentity, PrivateIdentity,
    Session, StoreError, UserIdentities,
};
use crypto_store::store::Store;
use crypto_store::tables::Tables;

fn alice_id() -> String {
    "@alice:example.org".to_string()
}

fn alice_device_id() -> String {
    "ALICEDEVICE".to_string()
}

fn bob_id() -> String {
    "@bob:example.org".to_string()
}

fn get_account() -> Account {
    Account {
        user_id: alice_id(),
        device_id: alice_device_id(),
        identity_keys: IdentityKeys {
            curve25519: "alice-curve25519-key".to_string(),
            ed25519: "alice-ed25519-key".to_string(),
        },
        pickle: "alice-account-pickle".to_string(),
        shared: false,
        uploaded_key_count: 0,
    }
}

fn get_store() -> Store {
    Store::open(&alice_id(), &alice_device_id(), Tables::new())
}

fn get_loaded_store() -> (Account, Store) {
    let mut store = get_store();
    let account = get_account();
    store.save_account(account.clone()).expect("Can't save account");
    (account, store)
}

fn get_session() -> Session {
    Session {
        session_id: "session-id-1".to_string(),
        sender_key: "bob-curve25519-key".to_string(),
        creation_time: Dur { secs: 17, nanos: 250 },
        last_use_time: Dur { secs: 23, nanos: 750 },
        pickle: "session-pickle".to_string(),
    }
}

fn get_group_session() -> InboundGroupSession {
    InboundGroupSession {
        session_id: "group-session-id".to_string(),
        sender_key: "alice-curve25519-key".to_string(),
        room_id: "!test:localhost".to_string(),
        pickle: "group-session-pickle".to_string(),
        imported: false,
        claimed_keys: vec![("ed25519".to_string(), "alice-ed25519-key".to_string())],
        forwarding_chains: Vec::new(),
    }
}

fn get_device() -> Device {
    Device {
        user_id: bob_id(),
        device_id: "BOBDEVICE".to_string(),
        display_name: Some("Bob's phone".to_string()),
        trust_state: LocalTrust::Unset,
        algorithms: vec!["m.olm.v1.curve25519-aes-sha2".to_string()],
        keys: vec![
            ("curve25519".to_string(), "bob-curve25519-key".to_string()),
            ("ed25519".to_string(), "bob-ed25519-key".to_string()),
        ],
        signatures: vec![(
            bob_id(),
            "ed25519".to_string(),
            "bob-signature".to_string(),
        )],
    }
}

fn get_csk(user: &str, tag: &str) -> CrossSigningKey {
    CrossSigningKey {
        user_id: user.to_string(),
        usage: vec![tag.to_string()],
        keys: vec![(format!("ed25519:{}", tag), format!("{}-key", tag))],
        signatures: vec![(user.to_string(), format!("ed25519:{}", tag), format!("{}-sig", tag))],
    }
}

fn get_own_identity() -> OwnIdentity {
    OwnIdentity {
        user_id: alice_id(),
        master_key: get_csk(&alice_id(), "master"),
        self_signing_key: get_csk(&alice_id(), "self_signing"),
        user_signing_key: get_csk(&alice_id(), "user_signing"),
        verified: false,
    }
}

fn get_other_identity() -> OtherIdentity {
    OtherIdentity {
        user_id: bob_id(),
        master_key: get_csk(&bob_id(), "master"),
        self_signing_key: get_csk(&bob_id(), "self_signing"),
    }
}

fn assert_account_eq(a: &Account, b: &Account) {
    assert_eq!(a.user_id, b.user_id);
    assert_eq!(a.device_id, b.device_id);
    assert_eq!(a.identity_keys.curve25519, b.identity_keys.curve25519);
    assert_eq!(a.identity_keys.ed25519, b.identity_keys.ed25519);
    assert_eq!(a.pickle, b.pickle);
    assert_eq!(a.shared, b.shared);
    assert_eq!(a.uploaded_key_count, b.uploaded_key_count);
}

fn assert_session_eq(a: &Session, b: &Session) {
    assert_eq!(a.session_id, b.session_id);
    assert_eq!(a.sender_key, b.sender_key);
    assert_eq!(a.creation_time, b.creation_time);
    assert_eq!(a.last_use_time, b.last_use_time);
    assert_eq!(a.pickle, b.pickle);
}

fn assert_device_eq(a: &Device, b: &Device) {
    assert_eq!(a.user_id, b.user_id);
    assert_eq!(a.device_id, b.device_id);
    assert_eq!(a.display_name, b.display_name);
    assert_eq!(a.trust_state, b.trust_state);
    assert_eq!(a.algorithms, b.algorithms);
    assert_eq!(a.keys, b.keys);
    assert_eq!(a.signatures, b.signatures);
}

fn assert_csk_eq(a: &CrossSigningKey, b: &CrossSigningKey) {
    assert_eq!(a.user_id, b.user_id);
    assert_eq!(a.usage, b.usage);
    assert_eq!(a.keys, b.keys);
    assert_eq!(a.signatures, b.signatures);
}

fn reopen(store: Store) -> Store {
    let tables = store.into_tables();
    let mut store = Store::open(&alice_id(), &alice_device_id(), tables);
    store.load_account().unwrap();
    store
}

fn device_changeset(changed: Vec<Device>, deleted: Vec<Device>) -> Changes {
    let mut changes = Changes::empty();
    changes.devices = DeviceChanges { new: Vec::new(), changed, deleted };
    changes
}

#[test]
fn create_store() {
    let _ = Store::open(&alice_id(), &alice_device_id(), Tables::new());
}

#[test]
fn save_account() {
    let mut store = get_store();
    assert!(store.load_account().unwrap().is_none());
    let account = get_account();

    store.save_account(account).expect("Can't save account");
}

#[test]
fn load_account() {
    let mut store = get_store();
    let account = get_account();

    store.save_account(account.clone()).expect("Can't save account");

    let loaded_account = store.load_account().expect("Can't load account");
    let loaded_account = loaded_account.unwrap();

    assert_account_eq(&account, &loaded_account);
}

#[test]
fn load_account_with_passphrase() {
    let mut store = Store::open_with_passphrase(
        &alice_id(),
        &alice_device_id(),
        Tables::new(),
        "secret_passphrase",
        b"0123456789abcdef0123456789abcdef".to_vec(),
    )
    .expect("Can't create a passphrase protected store");
    let account = get_account();

    store.save_account(account.clone()).expect("Can't save account");

    let loaded_account = store.load_account().expect("Can't load account");
    let loaded_account = loaded_account.unwrap();

    assert_account_eq(&account, &loaded_account);
}

#[test]
fn save_and_share_account() {
    let mut store = get_store();
    let mut account = get_account();

    store.save_account(account.clone()).expect("Can't save account");

    account.shared = true;
    account.uploaded_key_count = 50;

    store.save_account(account.clone()).expect("Can't save account");

    let loaded_account = store.load_account().expect("Can't load account");
    let loaded_account = loaded_account.unwrap();

    assert_account_eq(&account, &loaded_account);
    assert_eq!(account.uploaded_key_count, loaded_account.uploaded_key_count);
}

#[test]
fn saving_account_twice_is_byte_identical() {
    let mut store = get_store();
    let account = get_account();
    store.save_account(account.clone()).unwrap();
    let once = store.into_tables();

    let mut store = Store::open(&alice_id(), &alice_device_id(), once);
    store.save_account(account.clone()).unwrap();
    let twice = store.into_tables();

    assert_eq!(twice.accounts.len(), 1);
    assert_account_eq(&twice.accounts[0], &account);
}

#[test]
fn save_session() {
    let mut store = get_store();
    let account = get_account();
    let session = get_session();

    assert!(store.save_sessions(&vec![session.clone()]).is_err());

    store.save_account(account).expect("Can't save account");

    store.save_sessions(&vec![session]).unwrap();
}

#[test]
fn load_sessions() {
    let (_account, mut store) = get_loaded_store();
    let session = get_session();
    store.save_sessions(&vec![session.clone()]).unwrap();

    let sessions = store
        .load_sessions_for(&session.sender_key)
        .expect("Can't load sessions");
    let loaded_session = &sessions[0];

    assert_session_eq(&session, loaded_session);
}

#[test]
fn add_and_save_session() {
    let (account, mut store) = get_loaded_store();
    let session = get_session();
    let sender_key = session.sender_key.clone();
    let session_id = session.session_id.clone();

    store.save_sessions(&vec![session]).unwrap();

    let sessions = store.get_sessions(&sender_key).unwrap().unwrap();
    assert_eq!(session_id, sessions[0].session_id);

    let tables = store.into_tables();
    let mut store = Store::open(&alice_id(), &alice_device_id(), tables);

    let loaded_account = store.load_account().unwrap().unwrap();
    assert_account_eq(&account, &loaded_account);

    let sessions = store.get_sessions(&sender_key).unwrap().unwrap();
    assert_eq!(session_id, sessions[0].session_id);
}

#[test]
fn save_inbound_group_session() {
    let (_account, mut store) = get_loaded_store();
    let session = get_group_session();

    let mut changes = Changes::empty();
    changes.inbound_group_sessions.push(session);
    store.save_changes(changes).expect("Can't save group session");
}

#[test]
fn load_inbound_group_session() {
    let (_account, mut store) = get_loaded_store();
    let mut session = get_group_session();
    session.forwarding_chains = vec!["some_chain".to_string()];

    let mut changes = Changes::empty();
    changes.inbound_group_sessions.push(session.clone());
    store.save_changes(changes).expect("Can't save group session");

    let store = reopen(store);

    let loaded_session = store
        .get_inbound_group_session(&session.room_id, &session.sender_key, &session.session_id)
        .unwrap()
        .unwrap();
    assert_eq!(session.session_id, loaded_session.session_id);
    assert_eq!(session.pickle, loaded_session.pickle);
    assert_eq!(session.claimed_keys, loaded_session.claimed_keys);
    assert!(!loaded_session.forwarding_chains.is_empty());
    assert_eq!(session.forwarding_chains, loaded_session.forwarding_chains);
}

#[test]
fn group_session_children_are_additive() {
    let (_account, mut store) = get_loaded_store();
    let mut first = get_group_session();
    first.claimed_keys = vec![("ed25519".to_string(), "key-one".to_string())];
    first.forwarding_chains = vec!["chain-one".to_string()];

    let mut changes = Changes::empty();
    changes.inbound_group_sessions.push(first.clone());
    store.save_changes(changes).unwrap();

    let mut second = get_group_session();
    second.claimed_keys = vec![
        ("ed25519".to_string(), "key-two".to_string()),
        ("curve25519".to_string(), "key-three".to_string()),
    ];
    second.forwarding_chains = vec!["chain-one".to_string(), "chain-two".to_string()];

    let mut changes = Changes::empty();
    changes.inbound_group_sessions.push(second.clone());
    store.save_changes(changes).unwrap();

    let loaded = store
        .get_inbound_group_session(&first.room_id, &first.sender_key, &first.session_id)
        .unwrap()
        .unwrap();
    // The pair already stored under "ed25519" is kept, the new algorithm is
    // appended, and the chain grows monotonically.
    assert_eq!(
        loaded.claimed_keys,
        vec![
            ("ed25519".to_string(), "key-one".to_string()),
            ("curve25519".to_string(), "key-three".to_string()),
        ]
    );
    assert_eq!(
        loaded.forwarding_chains,
        vec!["chain-one".to_string(), "chain-two".to_string()]
    );
}

#[test]
fn test_tracked_users() {
    let (_account, mut store) = get_loaded_store();
    let device = get_device();

    assert!(store.update_tracked_user(&device.user_id, false).unwrap());
    assert!(!store.update_tracked_user(&device.user_id, false).unwrap());

    assert!(store.is_user_tracked(&device.user_id));
    assert!(!store.users_for_key_query().contains(&device.user_id));
    assert!(!store.update_tracked_user(&device.user_id, true).unwrap());
    assert!(store.users_for_key_query().contains(&device.user_id));

    let mut store = reopen(store);

    assert!(store.is_user_tracked(&device.user_id));
    assert!(store.users_for_key_query().contains(&device.user_id));

    store.update_tracked_user(&device.user_id, false).unwrap();
    assert!(!store.users_for_key_query().contains(&device.user_id));

    let store = reopen(store);

    assert!(!store.users_for_key_query().contains(&device.user_id));
}

#[test]
fn malformed_tracked_user_rows_are_skipped_on_reload() {
    let (_account, mut store) = get_loaded_store();
    store.update_tracked_user("not a valid user id", true).unwrap();
    assert!(store.is_user_tracked("not a valid user id"));

    let store = reopen(store);
    // The malformed row is skipped as a recoverable fault; the rest of the
    // registry still hydrates.
    assert!(!store.is_user_tracked("not a valid user id"));
}

#[test]
fn device_saving() {
    let (_account, mut store) = get_loaded_store();
    let device = get_device();

    store
        .save_changes(device_changeset(vec![device.clone()], Vec::new()))
        .unwrap();

    let store = reopen(store);

    let loaded_device = store
        .get_device(&device.user_id, &device.device_id)
        .unwrap()
        .unwrap();

    assert_device_eq(&device, &loaded_device);

    for algorithm in loaded_device.algorithms.iter() {
        assert!(device.algorithms.contains(algorithm));
    }
    assert_eq!(device.algorithms.len(), loaded_device.algorithms.len());
    assert_eq!(device.keys, loaded_device.keys);

    let user_devices = store.get_user_devices(&device.user_id).unwrap();
    assert_eq!(user_devices[0].device_id, device.device_id);
    assert_device_eq(&user_devices[0], &device);
}

#[test]
fn device_deleting() {
    let (_account, mut store) = get_loaded_store();
    let device = get_device();

    store
        .save_changes(device_changeset(vec![device.clone()], Vec::new()))
        .unwrap();

    store
        .save_changes(device_changeset(Vec::new(), vec![device.clone()]))
        .unwrap();

    let store = reopen(store);

    let loaded_device = store.get_device(&device.user_id, &device.device_id).unwrap();

    assert!(loaded_device.is_none());
}

#[test]
fn user_saving() {
    let user_id = "@example:localhost".to_string();
    let device_id = "WSKKLTJZCL".to_string();
    let mut store = Store::open(&user_id, &device_id, Tables::new());
    let mut account = get_account();
    account.user_id = user_id.clone();
    account.device_id = device_id.clone();
    store.save_account(account).expect("Can't save account");

    let mut own_identity = get_own_identity();
    own_identity.user_id = user_id.clone();
    own_identity.master_key.user_id = user_id.clone();
    own_identity.self_signing_key.user_id = user_id.clone();
    own_identity.user_signing_key.user_id = user_id.clone();

    let mut changes = Changes::empty();
    changes.identities = IdentityChanges {
        new: Vec::new(),
        changed: vec![UserIdentities::Own(own_identity.clone())],
    };
    store.save_changes(changes).expect("Can't save identity");

    let tables = store.into_tables();
    let mut store = Store::open(&user_id, &device_id, tables);
    store.load_account().unwrap();

    let loaded_user = store.get_user_identity(&own_identity.user_id).unwrap().unwrap();
    match &loaded_user {
        UserIdentities::Own(own) => {
            assert_csk_eq(&own.master_key, &own_identity.master_key);
            assert_csk_eq(&own.self_signing_key, &own_identity.self_signing_key);
            assert_csk_eq(&own.user_signing_key, &own_identity.user_signing_key);
            assert!(!own.verified);
        },
        UserIdentities::Other(_) => panic!("expected the own identity"),
    }

    let other_identity = get_other_identity();

    let mut changes = Changes::empty();
    changes.identities = IdentityChanges {
        new: Vec::new(),
        changed: vec![UserIdentities::Other(other_identity.clone())],
    };
    store.save_changes(changes).unwrap();

    let loaded_user = store.get_user_identity(&other_identity.user_id).unwrap().unwrap();
    match &loaded_user {
        UserIdentities::Other(other) => {
            assert_csk_eq(&other.master_key, &other_identity.master_key);
            assert_csk_eq(&other.self_signing_key, &other_identity.self_signing_key);
        },
        UserIdentities::Own(_) => panic!("expected another user's identity"),
    }

    let mut verified_identity = get_own_identity();
    verified_identity.user_id = user_id.clone();
    verified_identity.master_key.user_id = user_id.clone();
    verified_identity.self_signing_key.user_id = user_id.clone();
    verified_identity.user_signing_key.user_id = user_id.clone();
    verified_identity.verified = true;

    let mut changes = Changes::empty();
    changes.identities = IdentityChanges {
        new: Vec::new(),
        changed: vec![UserIdentities::Own(verified_identity)],
    };
    store.save_changes(changes).unwrap();

    let loaded_user = store.get_user_identity(&user_id).unwrap().unwrap();
    match &loaded_user {
        UserIdentities::Own(own) => assert!(own.verified),
        UserIdentities::Other(_) => panic!("expected the own identity"),
    }
}

#[test]
fn private_identity_saving() {
    let (_account, mut store) = get_loaded_store();
    assert!(store.load_identity().unwrap().is_none());

    let identity = PrivateIdentity {
        user_id: alice_id(),
        pickle: "private-identity-pickle".to_string(),
        shared: false,
    };

    let mut changes = Changes::empty();
    changes.private_identity = Some(identity.clone());

    store.save_changes(changes).unwrap();
    let loaded_identity = store.load_identity().unwrap().unwrap();
    assert_eq!(identity.user_id, loaded_identity.user_id);
    assert_eq!(identity.pickle, loaded_identity.pickle);
    assert_eq!(identity.shared, loaded_identity.shared);
}

#[test]
fn key_value_saving() {
    let (_account, mut store) = get_loaded_store();
    let key = "test_key".to_string();
    let value = "secret value".to_string();

    store.save_value(&key, &value).unwrap();
    let stored_value = store.get_value(&key).unwrap().unwrap();

    assert_eq!(value, stored_value);

    store.remove_value(&key).unwrap();
    assert!(store.get_value(&key).unwrap().is_none());
}

#[test]
fn olm_hash_saving() {
    let (_account, mut store) = get_loaded_store();

    let hash = OlmMessageHash {
        sender_key: "test_sender".to_string(),
        hash: "test_hash".to_string(),
    };

    let mut changes = Changes::empty();
    changes.message_hashes.push(hash.clone());

    assert!(!store.is_message_known(&hash).unwrap());
    store.save_changes(changes).unwrap();
    assert!(store.is_message_known(&hash).unwrap());

    let store = reopen(store);
    assert!(store.is_message_known(&hash).unwrap());
}

#[test]
fn per_account_calls_fail_before_account() {
    let mut store = get_store();
    let hash = OlmMessageHash {
        sender_key: "s".to_string(),
        hash: "h".to_string(),
    };

    assert_eq!(store.get_value("k").err().unwrap(), StoreError::AccountUnset);
    assert_eq!(store.save_value("k", "v").err().unwrap(), StoreError::AccountUnset);
    assert_eq!(store.remove_value("k").err().unwrap(), StoreError::AccountUnset);
    assert_eq!(store.is_message_known(&hash).err().unwrap(), StoreError::AccountUnset);
    assert_eq!(store.load_identity().err().unwrap(), StoreError::AccountUnset);
    assert_eq!(store.get_device(&bob_id(), "BOBDEVICE").err().unwrap(), StoreError::AccountUnset);
    assert_eq!(store.get_user_devices(&bob_id()).err().unwrap(), StoreError::AccountUnset);
    assert_eq!(store.get_user_identity(&bob_id()).err().unwrap(), StoreError::AccountUnset);
    assert_eq!(store.get_inbound_group_sessions().err().unwrap(), StoreError::AccountUnset);
    assert_eq!(
        store.get_inbound_group_session("!r:x", "s", "sid").err().unwrap(),
        StoreError::AccountUnset
    );
    assert_eq!(store.load_sessions_for("s").err().unwrap(), StoreError::AccountUnset);
    assert_eq!(store.get_sessions("s").err().unwrap(), StoreError::AccountUnset);
    assert_eq!(
        store.save_sessions(&vec![get_session()]).err().unwrap(),
        StoreError::AccountUnset
    );
    assert_eq!(
        store.update_tracked_user(&bob_id(), true).err().unwrap(),
        StoreError::AccountUnset
    );
    assert_eq!(
        store.save_changes(Changes::empty()).err().unwrap(),
        StoreError::AccountUnset
    );
}

#[test]
fn wrong_passphrase_fails_with_unpickling_error() {
    let store = Store::open_with_passphrase(
        &alice_id(),
        &alice_device_id(),
        Tables::new(),
        "first passphrase",
        b"0123456789abcdef0123456789abcdef".to_vec(),
    )
    .unwrap();
    let tables = store.into_tables();

    let err = Store::open_with_passphrase(
        &alice_id(),
        &alice_device_id(),
        tables,
        "second passphrase",
        b"ffffffffffffffffffffffffffffffff".to_vec(),
    )
    .err().unwrap();
    assert_eq!(err, StoreError::UnpicklingError);
}

#[test]
fn same_passphrase_reproduces_key_and_account() {
    let mut store = Store::open_with_passphrase(
        &alice_id(),
        &alice_device_id(),
        Tables::new(),
        "secret_passphrase",
        b"0123456789abcdef0123456789abcdef".to_vec(),
    )
    .unwrap();
    let key = store.pickle_key.key.clone();
    let account = get_account();
    store.save_account(account.clone()).unwrap();
    let tables = store.into_tables();

    let mut store = Store::open_with_passphrase(
        &alice_id(),
        &alice_device_id(),
        tables,
        "secret_passphrase",
        b"ffffffffffffffffffffffffffffffff".to_vec(),
    )
    .unwrap();
    assert_eq!(store.pickle_key.key, key);
    let loaded = store.load_account().unwrap().unwrap();
    assert_account_eq(&account, &loaded);
}

#[test]
fn session_timestamps_survive_reopen() {
    let (_account, mut store) = get_loaded_store();
    let session = get_session();
    store.save_sessions(&vec![session.clone()]).unwrap();

    let mut store = reopen(store);
    let sessions = store.get_sessions(&session.sender_key).unwrap().unwrap();
    assert_eq!(sessions[0].creation_time, Dur { secs: 17, nanos: 250 });
    assert_eq!(sessions[0].last_use_time, Dur { secs: 23, nanos: 750 });
}

#[test]
fn sessions_persist_across_reopen() {
    let (_account, mut store) = get_loaded_store();
    let sender = "bob-curve25519-key".to_string();
    let mut batch = Vec::new();
    let expected: Vec<String> = (0..3).map(|i| format!("session-id-{}", i)).collect();
    for id in expected.iter() {
        let mut s = get_session();
        s.session_id = id.clone();
        batch.push(s);
    }
    store.save_sessions(&batch).unwrap();

    let mut store = reopen(store);
    let sessions = store.get_sessions(&sender).unwrap().unwrap();
    let ids: Vec<String> = sessions.iter().map(|s| s.session_id.clone()).collect();
    assert_eq!(ids, expected);
}

#[test]
fn malformed_session_row_is_skipped() {
    let (_account, mut store) = get_loaded_store();
    let mut good = get_session();
    good.sender_key = "sk".to_string();
    store.save_sessions(&vec![good.clone()]).unwrap();
    store.tables.sessions.push(crypto_store::tables::SessionRow {
        account_id: 0,
        session_id: "sid".to_string(),
        sender_key: "sk".to_string(),
        creation_time_json: "no timestamp".to_string(),
        last_use_time_json: "no timestamp".to_string(),
        pickle: "p".to_string(),
    });
    // The malformed row is skipped as a recoverable fault; the rest of the
    // batch still loads.
    let sessions = store.load_sessions_for("sk").unwrap();
    assert_eq!(sessions.len(), 1);
    assert_session_eq(&good, &sessions[0]);
}

#[test]
fn malformed_usage_row_fails_with_serialization_error() {
    let (_account, mut store) = get_loaded_store();
    let other = get_other_identity();
    let mut changes = Changes::empty();
    changes.identities = IdentityChanges {
        new: vec![UserIdentities::Other(other.clone())],
        changed: Vec::new(),
    };
    store.save_changes(changes).unwrap();
    store.tables.users[0].master_key.usage_json = "no json here".to_string();
    assert_eq!(
        store.get_user_identity(&other.user_id).err().unwrap(),
        StoreError::SerializationError
    );
}

#[test]
fn missing_user_signing_key_is_inconsistent() {
    let (_account, mut store) = get_loaded_store();
    let other = get_other_identity();
    // Store another user's row set under the local user's id: the own-user
    // read then finds no user-signing key, a data-integrity fault.
    let mut foreign = other.clone();
    foreign.user_id = alice_id();
    let mut changes = Changes::empty();
    changes.identities = IdentityChanges {
        new: vec![UserIdentities::Other(foreign)],
        changed: Vec::new(),
    };
    store.save_changes(changes).unwrap();
    assert_eq!(
        store.get_user_identity(&alice_id()).err().unwrap(),
        StoreError::InconsistentIdentity
    );
}

#[test]
fn malformed_room_id_row_is_skipped() {
    let (_account, mut store) = get_loaded_store();
    let good = get_group_session();
    let mut bad = get_group_session();
    bad.session_id = "group-session-bad".to_string();
    bad.room_id = "not a room id".to_string();
    let mut changes = Changes::empty();
    changes.inbound_group_sessions.push(good.clone());
    changes.inbound_group_sessions.push(bad);
    store.save_changes(changes).unwrap();

    // The malformed row is skipped as a recoverable fault; the rest of the
    // batch still loads.
    let sessions = store.get_inbound_group_sessions().unwrap();
    assert_eq!(sessions.len(), 1);
    assert_eq!(sessions[0].session_id, good.session_id);
}

#[test]
fn group_sessions_load_in_bulk() {
    let (_account, mut store) = get_loaded_store();
    let mut changes = Changes::empty();
    for i in 0..3 {
        let mut s = get_group_session();
        s.session_id = format!("group-session-{}", i);
        changes.inbound_group_sessions.push(s);
    }
    store.save_changes(changes).unwrap();

    let store = reopen(store);
    let sessions = store.get_inbound_group_sessions().unwrap();
    assert_eq!(sessions.len(), 3);
}

#[test]
fn device_capability_rows_are_additive() {
    let (_account, mut store) = get_loaded_store();
    let device = get_device();
    store
        .save_changes(device_changeset(vec![device.clone()], Vec::new()))
        .unwrap();

    let mut updated = get_device();
    updated.display_name = Some("Bob's tablet".to_string());
    updated.algorithms = vec!["m.megolm.v1.aes-sha2".to_string()];
    updated.keys = vec![("curve25519".to_string(), "changed-key".to_string())];
    store
        .save_changes(device_changeset(vec![updated], Vec::new()))
        .unwrap();

    let loaded = store.get_device(&device.user_id, &device.device_id).unwrap().unwrap();
    // The main row is replaced, capability rows are only added: the old
    // algorithm stays, the old key is kept rather than overwritten.
    assert_eq!(loaded.display_name, Some("Bob's tablet".to_string()));
    assert_eq!(
        loaded.algorithms,
        vec![
            "m.olm.v1.curve25519-aes-sha2".to_string(),
            "m.megolm.v1.aes-sha2".to_string(),
        ]
    );
    assert_eq!(
        loaded.keys,
        vec![
            ("curve25519".to_string(), "bob-curve25519-key".to_string()),
            ("ed25519".to_string(), "bob-ed25519-key".to_string()),
        ]
    );
}

#[test]
fn invalid_signature_rows_are_skipped_on_load() {
    let (_account, mut store) = get_loaded_store();
    let mut device = get_device();
    device.signatures.push((
        "not a valid user id".to_string(),
        "ed25519".to_string(),
        "stray-signature".to_string(),
    ));
    store
        .save_changes(device_changeset(vec![device.clone()], Vec::new()))
        .unwrap();

    let loaded = store.get_device(&device.user_id, &device.device_id).unwrap().unwrap();
    assert_eq!(
        loaded.signatures,
        vec![(bob_id(), "ed25519".to_string(), "bob-signature".to_string())]
    );
}

#[test]
fn changeset_with_account_needs_no_prior_account() {
    let mut store = get_store();
    let mut changes = Changes::empty();
    changes.account = Some(get_account());
    let hash = OlmMessageHash {
        sender_key: "s".to_string(),
        hash: "h".to_string(),
    };
    changes.message_hashes.push(hash.clone());
    store.save_changes(changes).unwrap();
    assert!(store.is_message_known(&hash).unwrap());
}
