//! The store's laws: what holds across calls — round trips, idempotence,
//! persistence across close and reopen.
//!
//! Each law is stated over the spec functions the operations' contracts use:
//! the row-image transitions of saves and changesets on one side, the lookups
//! of loads on the other.  Closing a store hands its row image back unchanged
//! (`into_tables`) and opening carries it in unchanged (`open`), so a
//! property of the row image holds across a close-and-reopen.

use vstd::prelude::*;
use crate::records::{AccountV, SessionV, DeviceV, OlmMessageHashV};
use crate::tables::{
    SessionRowV, TrackedUserRowV, DeviceRowV, OlmHashRowV, PickleKeyRowV, acct_key, sess_id_is,
    sess_for, tracked_key, hash_key, pk_key, device_key, found_device_in, device_saved,
};
use crate::pickle::SealedPickleKeyV;
use crate::store::{
    saved_session_rows, row_of_session, decoded_sessions, row_decodes, session_value,
    session_of_row, saved_device_rows, deleted_device_rows, saved_hash_rows, tracked_prefix,
    dirty_prefix,
};
use crate::seq_find::{
    first_where, has_where, upsert_where, remove_where, lemma_first_where, lemma_first_where_is,
    lemma_first_where_none, lemma_upsert_found, lemma_remove_where_gone, lemma_filter_all,
};

verus! {

/// Saving an account and then loading it yields the account back with every
/// field equal: the upsert that `save_account` performs leaves exactly the
/// saved row where the lookup of `load_account` finds it.
pub proof fn law_account_save_load(accounts: Seq<AccountV>, a: AccountV)
    ensures
        ({
            let t2 = upsert_where(accounts, acct_key(a.user_id, a.device_id), a);
            let i = first_where(t2, acct_key(a.user_id, a.device_id));
            0 <= i < t2.len() && t2[i] == a
        }),
{
    lemma_upsert_found(accounts, acct_key(a.user_id, a.device_id), a);
}

/// Saving the same account twice with unchanged fields leaves the stored
/// account table identical to saving it once (and `save_account` touches no
/// other table).
pub proof fn law_account_save_idempotent(accounts: Seq<AccountV>, a: AccountV)
    ensures
        ({
            let p = acct_key(a.user_id, a.device_id);
            upsert_where(upsert_where(accounts, p, a), p, a) == upsert_where(accounts, p, a)
        }),
{
    let p = acct_key(a.user_id, a.device_id);
    let t2 = upsert_where(accounts, p, a);
    lemma_upsert_found(accounts, p, a);
    let i = first_where(t2, p);
    assert(upsert_where(t2, p, a) == t2.update(i, a));
    assert(t2.update(i, a) =~= t2);
}

/// A batch of fresh sessions lands as appended rows: nothing already stored
/// moves, and each saved session stands at the end in batch order.
pub proof fn lemma_saved_rows_fresh(t: Seq<SessionRowV>, aid: usize, batch: Seq<SessionV>)
    requires
        forall|i: int|
            0 <= i < batch.len() ==> !has_where(
                t,
                sess_id_is((#[trigger] batch[i]).session_id),
            ),
        forall|i: int, j: int|
            0 <= i < j < batch.len() ==> batch[i].session_id != batch[j].session_id,
    ensures
        saved_session_rows(t, aid, batch) == t + batch.map_values(
            |s: SessionV| row_of_session(aid, s),
        ),
    decreases batch.len(),
{
    let m = |s: SessionV| row_of_session(aid, s);
    if batch.len() == 0 {
        assert(saved_session_rows(t, aid, batch) =~= t + batch.map_values(m));
    } else {
        let earlier = batch.drop_last();
        let last = batch.last();
        assert(forall|i: int|
            0 <= i < earlier.len() ==> !has_where(
                t,
                sess_id_is((#[trigger] earlier[i]).session_id),
            ));
        lemma_saved_rows_fresh(t, aid, earlier);
        let prev = t + earlier.map_values(m);
        let p = sess_id_is(last.session_id);
        assert forall|j: int| 0 <= j < prev.len() implies !p(prev[j]) by {
            if j < t.len() {
                assert(prev[j] == t[j]);
                assert(!has_where(t, p));
                if p(t[j]) {
                    assert(has_where(t, p));
                }
            } else {
                let x = j - t.len();
                assert(prev[j] == m(earlier[x]));
                assert(earlier[x].session_id != last.session_id);
            }
        }
        lemma_first_where_none(prev, p);
        assert(saved_session_rows(t, aid, batch) == prev.push(m(last)));
        assert(prev.push(m(last)) =~= t + batch.map_values(m));
    }
}

/// Saving a batch of fresh sessions for one sender key, closing the store
/// and reopening it, then querying that key returns exactly what the old
/// rows yielded followed by the batch: in particular the same session ids,
/// in order, none lost.
pub proof fn law_sessions_persist(
    t: Seq<SessionRowV>,
    aid: usize,
    batch: Seq<SessionV>,
    k: Seq<char>,
)
    requires
        forall|i: int| 0 <= i < batch.len() ==> (#[trigger] batch[i]).sender_key == k,
        forall|i: int|
            0 <= i < batch.len() ==> (#[trigger] batch[i]).creation_time.nanos < 1_000_000_000
                && batch[i].last_use_time.nanos < 1_000_000_000,
        forall|i: int|
            0 <= i < batch.len() ==> !has_where(
                t,
                sess_id_is((#[trigger] batch[i]).session_id),
            ),
        forall|i: int, j: int|
            0 <= i < j < batch.len() ==> batch[i].session_id != batch[j].session_id,
    ensures
        ({
            let rows = saved_session_rows(t, aid, batch).filter(sess_for(aid, k));
            let pre = t.filter(sess_for(aid, k));
            &&& rows == pre + batch.map_values(|s: SessionV| row_of_session(aid, s))
            &&& decoded_sessions(rows).len() == decoded_sessions(pre).len() + batch.len()
            &&& (forall|i: int|
                0 <= i < batch.len() ==> decoded_sessions(rows)[decoded_sessions(pre).len()
                    + i].session_id == (#[trigger] batch[i]).session_id)
        }),
{
    let m = |s: SessionV| row_of_session(aid, s);
    let p = sess_for(aid, k);
    let d = row_decodes();
    lemma_saved_rows_fresh(t, aid, batch);
    let mapped = batch.map_values(m);
    Seq::<SessionRowV>::filter_distributes_over_add(t, mapped, p);
    assert(forall|i: int| 0 <= i < mapped.len() ==> p(#[trigger] mapped[i])) by {
        assert forall|i: int| 0 <= i < mapped.len() implies p(#[trigger] mapped[i]) by {
            assert(mapped[i] == m(batch[i]));
        }
    }
    lemma_filter_all(mapped, p);
    let rows = saved_session_rows(t, aid, batch).filter(p);
    let pre = t.filter(p);
    assert(rows == pre + mapped);
    // Every freshly written row decodes: its timestamp text is the encoder's.
    assert forall|i: int| 0 <= i < mapped.len() implies d(#[trigger] mapped[i]) by {
        reveal(crate::json::duration_decoded);
        assert(mapped[i] == m(batch[i]));
        let sv = batch[i];
        assert(sv.creation_time.nanos < 1_000_000_000 && mapped[i].creation_time_json
            == crate::json::duration_json(sv.creation_time.secs, sv.creation_time.nanos));
        assert(crate::json::duration_decoded(mapped[i].creation_time_json) is Some);
        assert(sv.last_use_time.nanos < 1_000_000_000 && mapped[i].last_use_time_json
            == crate::json::duration_json(sv.last_use_time.secs, sv.last_use_time.nanos));
        assert(crate::json::duration_decoded(mapped[i].last_use_time_json) is Some);
        assert(session_of_row(mapped[i]) is Some);
    }
    Seq::<SessionRowV>::filter_distributes_over_add(pre, mapped, d);
    lemma_filter_all(mapped, d);
    assert(rows.filter(d) == pre.filter(d) + mapped);
    assert(decoded_sessions(rows) =~= decoded_sessions(pre) + mapped.map_values(
        |r: SessionRowV| session_value(r),
    ));
    assert forall|i: int| 0 <= i < batch.len() implies decoded_sessions(rows)[decoded_sessions(
        pre,
    ).len() + i].session_id == (#[trigger] batch[i]).session_id by {
        assert(mapped[i] == m(batch[i]));
        assert(decoded_sessions(rows)[decoded_sessions(pre).len() + i] == session_value(
            mapped[i],
        ));
        assert(session_value(mapped[i]).session_id == mapped[i].session_id);
    }
}

/// A device saved through a "changed" changeset is found afterwards, holding
/// the merged row the save describes.
pub proof fn law_device_changed_found(rows: Seq<DeviceRowV>, aid: usize, d: DeviceV)
    ensures
        ({
            let r2 = saved_device_rows(rows, aid, seq![d]);
            found_device_in(r2, aid, d.user_id, d.device_id) == Some(
                device_saved(found_device_in(rows, aid, d.user_id, d.device_id), d),
            )
        }),
{
    let p = device_key(aid, d.user_id, d.device_id);
    assert(seq![d].drop_last() =~= Seq::<DeviceV>::empty());
    assert(seq![d].last() == d);
    assert(saved_device_rows(rows, aid, seq![d].drop_last()) == rows);
    let merged = device_saved(found_device_in(rows, aid, d.user_id, d.device_id), d);
    let rv = DeviceRowV { account_id: aid, device: merged };
    assert(saved_device_rows(rows, aid, seq![d]) == upsert_where(rows, p, rv));
    lemma_upsert_found(rows, p, rv);
}

/// A device deleted through a "deleted" changeset is absent afterwards.
pub proof fn law_device_deleted_absent(rows: Seq<DeviceRowV>, aid: usize, d: DeviceV)
    ensures
        found_device_in(
            deleted_device_rows(rows, aid, seq![d]),
            aid,
            d.user_id,
            d.device_id,
        ) is None,
{
    let p = device_key(aid, d.user_id, d.device_id);
    assert(seq![d].drop_last() =~= Seq::<DeviceV>::empty());
    assert(deleted_device_rows(rows, aid, seq![d].drop_last()) == rows);
    assert(deleted_device_rows(rows, aid, seq![d]) == remove_where(rows, p));
    lemma_remove_where_gone(rows, p);
}

/// A tracked user persisted under an account is hydrated again after a
/// reopen: membership always, the key-refresh flag exactly as last written —
/// for the flag's clearing, the row set must be duplicate-free on its key,
/// as the schema's uniqueness constraint keeps it.
pub proof fn law_tracked_survives_reload(
    rows: Seq<TrackedUserRowV>,
    aid: usize,
    u: Seq<char>,
    dirty: bool,
)
    requires
        crate::ids::user_id_ok(u),
        forall|i: int, j: int|
            0 <= i < j < rows.len() ==> !((#[trigger] rows[i]).account_id == (
            #[trigger] rows[j]).account_id && rows[i].user_id == rows[j].user_id),
    ensures
        ({
            let r2 = upsert_where(
                rows,
                tracked_key(aid, u),
                TrackedUserRowV { account_id: aid, user_id: u, dirty },
            );
            &&& tracked_prefix(r2, aid, r2.len() as int).contains(u)
            &&& dirty_prefix(r2, aid, r2.len() as int).contains(u) == dirty
        }),
{
    let p = tracked_key(aid, u);
    let rv = TrackedUserRowV { account_id: aid, user_id: u, dirty };
    let r2 = upsert_where(rows, p, rv);
    lemma_upsert_found(rows, p, rv);
    let i = first_where(r2, p);
    assert(tracked_prefix(r2, aid, r2.len() as int).contains(u)) by {
        assert(0 <= i < r2.len() && r2[i].account_id == aid && r2[i].user_id == u);
    }
    if dirty {
        assert(dirty_prefix(r2, aid, r2.len() as int).contains(u)) by {
            assert(0 <= i < r2.len() && r2[i].account_id == aid && r2[i].user_id == u
                && r2[i].dirty);
        }
    } else {
        lemma_first_where(rows, p);
        let f = first_where(rows, p);
        assert(!dirty_prefix(r2, aid, r2.len() as int).contains(u)) by {
            if dirty_prefix(r2, aid, r2.len() as int).contains(u) {
                let j = choose|j: int|
                    0 <= j < r2.len() && r2[j].account_id == aid && r2[j].user_id == u
                        && r2[j].dirty;
                if f >= 0 {
                    assert(r2 == rows.update(f, rv));
                    assert(j != f);
                    assert(r2[j] == rows[j]);
                    assert(p(rows[j]));
                    if j < f {
                        assert(!p(rows[j]));
                    } else {
                        assert(!(rows[f].account_id == rows[j].account_id && rows[f].user_id
                            == rows[j].user_id));
                    }
                } else {
                    assert(r2 == rows.push(rv));
                    if j < rows.len() {
                        assert(r2[j] == rows[j]);
                        assert(!p(rows[j]));
                    } else {
                        assert(r2[j] == rv);
                    }
                }
            }
        }
    }
}

/// A replay hash recorded through a changeset is known immediately after,
/// whether or not it was already present — and, the row image being what a
/// reopen carries over, after a reopen too.
pub proof fn law_hash_recorded(rows: Seq<OlmHashRowV>, aid: usize, h: OlmMessageHashV)
    ensures
        has_where(
            saved_hash_rows(rows, aid, seq![h]),
            hash_key(aid, h.sender_key, h.hash),
        ),
{
    let p = hash_key(aid, h.sender_key, h.hash);
    assert(seq![h].drop_last() =~= Seq::<OlmMessageHashV>::empty());
    assert(saved_hash_rows(rows, aid, seq![h].drop_last()) == rows);
    assert(seq![h].last() == h);
    let r2 = saved_hash_rows(rows, aid, seq![h]);
    if has_where(rows, p) {
        assert(r2 == rows);
    } else {
        let pushed = rows.push(OlmHashRowV { account_id: aid, sender_key: h.sender_key, hash: h.hash });
        assert(r2 == pushed);
        assert(p(pushed[rows.len() as int]));
    }
}

/// Opening with a passphrase stores a sealed key that the same passphrase
/// opens again after a reopen — reproducing the same pickle key, and with it
/// the same account — while any other passphrase is rejected: the stored
/// record determines exactly the passphrase that opens it.
pub proof fn law_passphrase_round_trip(
    pks: Seq<PickleKeyRowV>,
    u: Seq<char>,
    d: Seq<char>,
    pass: Seq<char>,
    other: Seq<char>,
    fresh: Seq<u8>,
)
    requires
        first_where(pks, pk_key(u, d)) == -1,
        other != pass,
    ensures
        ({
            let r2 = pks.push(
                PickleKeyRowV {
                    user_id: u,
                    device_id: d,
                    sealed: SealedPickleKeyV { passphrase: pass, key: fresh },
                },
            );
            let i = first_where(r2, pk_key(u, d));
            &&& 0 <= i < r2.len()
            &&& r2[i].sealed.passphrase == pass
            &&& r2[i].sealed.key == fresh
            &&& r2[i].sealed.passphrase != other
        }),
{
    let rv = PickleKeyRowV {
        user_id: u,
        device_id: d,
        sealed: SealedPickleKeyV { passphrase: pass, key: fresh },
    };
    let p = pk_key(u, d);
    lemma_first_where(pks, p);
    let r2 = pks.push(rv);
    assert forall|j: int| 0 <= j < pks.len() implies !p(r2[j]) by {
        assert(r2[j] == pks[j]);
    }
    lemma_first_where_is(r2, p, pks.len() as int);
}


} // verus!
