//! Key uniqueness across mutations: the schema's UNIQUE constraints, stated
//! as [`crate::tables::tables_wf`], hold of a fresh row image and are kept by
//! every mutation of the store — each single-row upsert and delete, a session
//! batch, and the whole fixed-order changeset.

use vstd::prelude::*;
use crate::records::{
    AccountV, SessionV, DeviceV, OlmMessageHashV, ChangesV, InboundGroupSessionV,
    UserIdentitiesV, idv_user,
};
use crate::tables::{
    SessionRowV, TrackedUserRowV, DeviceRowV, OlmHashRowV, PickleKeyRowV, UserRowV, TablesV,
    acct_key, sess_id_is, tracked_key, hash_key, pk_key, device_key, kv_key, priv_key, user_key,
    group_key, found_device_in, found_group_in, found_user_in, device_saved, group_saved,
    user_row_saved, tables_wf, acct_row_key, priv_row_key, pk_row_key, sess_row_key,
    tracked_row_key, group_row_key, device_row_key, user_row_key, kv_row_key, hash_row_key,
};
use crate::store::{
    saved_session_rows, row_of_session, saved_device_rows, deleted_device_rows, saved_user_rows,
    saved_hash_rows, saved_group_rows, apply_changes_tables, acct_applied_tables,
};
use crate::seq_find::{
    upsert_where, remove_where, has_where, unique_by, lemma_upsert_where_keeps_unique,
    lemma_remove_where_keeps_unique, lemma_push_fresh_keeps_unique,
};

verus! {

/// The schema's UNIQUE keys survive a batch of session upserts.
proof fn lemma_sessions_keep_unique(t: Seq<SessionRowV>, aid: usize, batch: Seq<SessionV>)
    requires
        unique_by(t, sess_row_key()),
    ensures
        unique_by(saved_session_rows(t, aid, batch), sess_row_key()),
    decreases batch.len(),
{
    if batch.len() > 0 {
        lemma_sessions_keep_unique(t, aid, batch.drop_last());
        let pre = saved_session_rows(t, aid, batch.drop_last());
        let v = row_of_session(aid, batch.last());
        assert(forall|x: SessionRowV| #[trigger] sess_id_is(batch.last().session_id)(x)
            <==> sess_row_key()(x) == sess_row_key()(v));
        lemma_upsert_where_keeps_unique(pre, sess_id_is(batch.last().session_id), v, sess_row_key());
    }
}

/// The schema's UNIQUE keys survive a batch of group-session upserts.
proof fn lemma_groups_keep_unique(
    t: Seq<crate::tables::GroupSessionRowV>,
    aid: usize,
    batch: Seq<InboundGroupSessionV>,
)
    requires
        unique_by(t, group_row_key()),
    ensures
        unique_by(saved_group_rows(t, aid, batch), group_row_key()),
    decreases batch.len(),
{
    if batch.len() > 0 {
        lemma_groups_keep_unique(t, aid, batch.drop_last());
        let pre = saved_group_rows(t, aid, batch.drop_last());
        let g = batch.last();
        let v = crate::tables::GroupSessionRowV {
            account_id: aid,
            session: group_saved(found_group_in(pre, aid, g.session_id, g.sender_key), g),
        };
        assert(v.session.session_id == g.session_id && v.session.sender_key == g.sender_key);
        assert(forall|x: crate::tables::GroupSessionRowV| #[trigger] group_key(
            aid,
            g.session_id,
            g.sender_key,
        )(x) <==> group_row_key()(x) == group_row_key()(v));
        lemma_upsert_where_keeps_unique(
            pre,
            group_key(aid, g.session_id, g.sender_key),
            v,
            group_row_key(),
        );
    }
}

/// The schema's UNIQUE keys survive a batch of device upserts.
proof fn lemma_devices_keep_unique(t: Seq<DeviceRowV>, aid: usize, batch: Seq<DeviceV>)
    requires
        unique_by(t, device_row_key()),
    ensures
        unique_by(saved_device_rows(t, aid, batch), device_row_key()),
    decreases batch.len(),
{
    if batch.len() > 0 {
        lemma_devices_keep_unique(t, aid, batch.drop_last());
        let pre = saved_device_rows(t, aid, batch.drop_last());
        let d = batch.last();
        let v = DeviceRowV {
            account_id: aid,
            device: device_saved(found_device_in(pre, aid, d.user_id, d.device_id), d),
        };
        assert(v.device.user_id == d.user_id && v.device.device_id == d.device_id);
        assert(forall|x: DeviceRowV| #[trigger] device_key(aid, d.user_id, d.device_id)(x)
            <==> device_row_key()(x) == device_row_key()(v));
        lemma_upsert_where_keeps_unique(
            pre,
            device_key(aid, d.user_id, d.device_id),
            v,
            device_row_key(),
        );
    }
}

/// The schema's UNIQUE keys survive a batch of device deletes.
proof fn lemma_deletes_keep_unique(t: Seq<DeviceRowV>, aid: usize, batch: Seq<DeviceV>)
    requires
        unique_by(t, device_row_key()),
    ensures
        unique_by(deleted_device_rows(t, aid, batch), device_row_key()),
    decreases batch.len(),
{
    if batch.len() > 0 {
        lemma_deletes_keep_unique(t, aid, batch.drop_last());
        lemma_remove_where_keeps_unique(
            deleted_device_rows(t, aid, batch.drop_last()),
            device_key(aid, batch.last().user_id, batch.last().device_id),
            device_row_key(),
        );
    }
}

/// The schema's UNIQUE keys survive a batch of identity upserts.
proof fn lemma_users_keep_unique(t: Seq<UserRowV>, aid: usize, batch: Seq<UserIdentitiesV>)
    requires
        unique_by(t, user_row_key()),
    ensures
        unique_by(saved_user_rows(t, aid, batch), user_row_key()),
    decreases batch.len(),
{
    if batch.len() > 0 {
        lemma_users_keep_unique(t, aid, batch.drop_last());
        let pre = saved_user_rows(t, aid, batch.drop_last());
        let ident = batch.last();
        let v = user_row_saved(found_user_in(pre, aid, idv_user(ident)), aid, ident);
        assert(v.account_id == aid && v.user_id == idv_user(ident));
        assert(forall|x: UserRowV| #[trigger] user_key(aid, idv_user(ident))(x)
            <==> user_row_key()(x) == user_row_key()(v));
        lemma_upsert_where_keeps_unique(pre, user_key(aid, idv_user(ident)), v, user_row_key());
    }
}

/// The schema's UNIQUE keys survive a batch of replay-hash records.
proof fn lemma_hashes_keep_unique(t: Seq<OlmHashRowV>, aid: usize, batch: Seq<OlmMessageHashV>)
    requires
        unique_by(t, hash_row_key()),
    ensures
        unique_by(saved_hash_rows(t, aid, batch), hash_row_key()),
    decreases batch.len(),
{
    if batch.len() > 0 {
        lemma_hashes_keep_unique(t, aid, batch.drop_last());
        let pre = saved_hash_rows(t, aid, batch.drop_last());
        let h = batch.last();
        if !has_where(pre, hash_key(aid, h.sender_key, h.hash)) {
            let v = OlmHashRowV { account_id: aid, sender_key: h.sender_key, hash: h.hash };
            assert forall|i: int| 0 <= i < pre.len() implies hash_row_key()(#[trigger] pre[i])
                != hash_row_key()(v) by {
                if hash_row_key()(pre[i]) == hash_row_key()(v) {
                    assert(hash_key(aid, h.sender_key, h.hash)(pre[i]));
                }
            }
            lemma_push_fresh_keeps_unique(pre, v, hash_row_key());
        }
    }
}

/// Every mutation of the store keeps the schema's UNIQUE keys: the account
/// upsert of `save_account`, the tracked, setting, private-identity and
/// pickle-key upserts, the setting delete, the session batch of
/// `save_sessions`, and the whole fixed-order changeset — a well-formed row
/// image stays well-formed.
pub proof fn law_changes_keep_wf(t: TablesV, aid: usize, c: ChangesV)
    requires
        tables_wf(t),
    ensures
        tables_wf(acct_applied_tables(t, c)),
        tables_wf(apply_changes_tables(acct_applied_tables(t, c), aid, c)),
{
    let t0 = acct_applied_tables(t, c);
    match c.account {
        Some(a) => {
            assert(forall|x: AccountV| #[trigger] acct_key(a.user_id, a.device_id)(x)
                <==> acct_row_key()(x) == acct_row_key()(a));
            lemma_upsert_where_keeps_unique(
                t.accounts,
                acct_key(a.user_id, a.device_id),
                a,
                acct_row_key(),
            );
        },
        None => {},
    }
    match c.private_identity {
        Some(p) => {
            let v = crate::tables::PrivateIdentityRowV { account_id: aid, identity: p };
            assert(forall|x: crate::tables::PrivateIdentityRowV| #[trigger] priv_key(
                aid,
                p.user_id,
            )(x) <==> priv_row_key()(x) == priv_row_key()(v));
            lemma_upsert_where_keeps_unique(
                t0.private_identities,
                priv_key(aid, p.user_id),
                v,
                priv_row_key(),
            );
        },
        None => {},
    }
    lemma_sessions_keep_unique(t0.sessions, aid, c.sessions);
    lemma_groups_keep_unique(t0.group_sessions, aid, c.inbound_group_sessions);
    lemma_devices_keep_unique(t0.devices, aid, c.devices.new);
    lemma_devices_keep_unique(
        saved_device_rows(t0.devices, aid, c.devices.new),
        aid,
        c.devices.changed,
    );
    lemma_deletes_keep_unique(
        saved_device_rows(saved_device_rows(t0.devices, aid, c.devices.new), aid, c.devices.changed),
        aid,
        c.devices.deleted,
    );
    lemma_users_keep_unique(t0.users, aid, c.identities.new);
    lemma_users_keep_unique(
        saved_user_rows(t0.users, aid, c.identities.new),
        aid,
        c.identities.changed,
    );
    lemma_hashes_keep_unique(t0.olm_hashes, aid, c.message_hashes);
}

/// The single-row upserts of the store keep the schema's UNIQUE keys too:
/// tracked users, settings (saved or removed), private identities, pickle
/// keys, and a session batch.
pub proof fn law_single_mutations_keep_wf(
    t: TablesV,
    aid: usize,
    u: Seq<char>,
    d: Seq<char>,
    dirty: bool,
    key_text: Seq<char>,
    value: Seq<char>,
    p_id: crate::records::PrivateIdentityV,
    sealed: crate::pickle::SealedPickleKeyV,
    batch: Seq<SessionV>,
)
    requires
        tables_wf(t),
    ensures
        unique_by(
            upsert_where(
                t.tracked_users,
                tracked_key(aid, u),
                TrackedUserRowV { account_id: aid, user_id: u, dirty },
            ),
            tracked_row_key(),
        ),
        unique_by(
            upsert_where(
                t.key_values,
                kv_key(aid, key_text),
                crate::tables::KeyValueRowV { account_id: aid, key: key_text, value },
            ),
            kv_row_key(),
        ),
        unique_by(remove_where(t.key_values, kv_key(aid, key_text)), kv_row_key()),
        unique_by(
            upsert_where(
                t.private_identities,
                priv_key(aid, p_id.user_id),
                crate::tables::PrivateIdentityRowV { account_id: aid, identity: p_id },
            ),
            priv_row_key(),
        ),
        unique_by(
            upsert_where(
                t.pickle_keys,
                pk_key(u, d),
                PickleKeyRowV { user_id: u, device_id: d, sealed },
            ),
            pk_row_key(),
        ),
        unique_by(saved_session_rows(t.sessions, aid, batch), sess_row_key()),
{
    let trv = TrackedUserRowV { account_id: aid, user_id: u, dirty };
    assert(forall|x: TrackedUserRowV| #[trigger] tracked_key(aid, u)(x) <==> tracked_row_key()(x)
        == tracked_row_key()(trv));
    lemma_upsert_where_keeps_unique(t.tracked_users, tracked_key(aid, u), trv, tracked_row_key());
    let kvv = crate::tables::KeyValueRowV { account_id: aid, key: key_text, value };
    assert(forall|x: crate::tables::KeyValueRowV| #[trigger] kv_key(aid, key_text)(x)
        <==> kv_row_key()(x) == kv_row_key()(kvv));
    lemma_upsert_where_keeps_unique(t.key_values, kv_key(aid, key_text), kvv, kv_row_key());
    lemma_remove_where_keeps_unique(t.key_values, kv_key(aid, key_text), kv_row_key());
    let pv = crate::tables::PrivateIdentityRowV { account_id: aid, identity: p_id };
    assert(forall|x: crate::tables::PrivateIdentityRowV| #[trigger] priv_key(aid, p_id.user_id)(
        x,
    ) <==> priv_row_key()(x) == priv_row_key()(pv));
    lemma_upsert_where_keeps_unique(
        t.private_identities,
        priv_key(aid, p_id.user_id),
        pv,
        priv_row_key(),
    );
    let pkv = PickleKeyRowV { user_id: u, device_id: d, sealed };
    assert(forall|x: PickleKeyRowV| #[trigger] pk_key(u, d)(x) <==> pk_row_key()(x)
        == pk_row_key()(pkv));
    lemma_upsert_where_keeps_unique(t.pickle_keys, pk_key(u, d), pkv, pk_row_key());
    lemma_sessions_keep_unique(t.sessions, aid, batch);
}

} // verus!
