//! Presence: connection lifecycle hooks. On connect a bound
//! connection is marked online; on disconnect it is marked offline
//! and any in-flight upload of that connection is abandoned.
use vstd::prelude::*;

verus! {

use crate::rows::{Change, ChangeV, Identity, Row, RowV, UserV, dup_temp_file, dup_user};
use crate::store::{
    ChatDb, DbModel, cred_conn_idx, find_credentials_by_conn, find_request, find_temp_file,
    find_user_by_id, has_cred_conn, has_cred_uid, has_request, has_staging, has_user_id,
    lemma_cred_conn_at, lemma_req_at, lemma_staging_at, lemma_user_id_at, req_idx,
    req_file_has_staging, staging_idx, user_id_idx,
};
use crate::text::{remove_u64, without_id};
use vstd::pervasive::VecAdditionalExecFns;

/// The exact effect of marking a connection online or offline: if the
/// connection is bound to an account, that account's online set is
/// rewritten without the connection and, when `value` is set, with it
/// appended; an unbound connection changes nothing.
pub open spec fn update_online_tr(m: DbModel, s: Identity, value: bool) -> DbModel {
    if !has_cred_conn(m.credentials, s) {
        m
    } else {
        let ci = cred_conn_idx(m.credentials, s);
        let c = m.credentials[ci];
        let ui = user_id_idx(m.users, c.user_id);
        let u = m.users[ui];
        let online2 = if value {
            without_id(u.online, s).push(s)
        } else {
            without_id(u.online, s)
        };
        let u2 = UserV { online: online2, ..u };
        DbModel {
            users: m.users.update(ui, u2),
            changes: m.changes.push(ChangeV::Updated(RowV::UserRow(u), RowV::UserRow(u2))),
            ..m
        }
    }
}

/// Marking online or offline preserves the store invariant.
pub proof fn lemma_update_online_wf(m: DbModel, s: Identity, value: bool)
    requires
        m.wf(),
    ensures
        update_online_tr(m, s, value).wf(),
{
    let m1 = update_online_tr(m, s, value);
    if has_cred_conn(m.credentials, s) {
        let ci = cred_conn_idx(m.credentials, s);
        let c = m.credentials[ci];
        assert(has_user_id(m.users, c.user_id));
        let ui = user_id_idx(m.users, c.user_id);
        assert(forall|i: int| #![trigger m1.users[i]]
            0 <= i < m1.users.len() ==> m1.users[i].id == m.users[i].id && m1.users[i].name
                == m.users[i].name);
        assert forall|i: int| 0 <= i < m1.users.len() implies has_cred_uid(
            m1.credentials,
            (#[trigger] m1.users[i]).id,
        ) by {
            assert(has_cred_uid(m.credentials, m.users[i].id));
        }
        assert forall|i: int| 0 <= i < m1.credentials.len() implies has_user_id(
            m1.users,
            (#[trigger] m1.credentials[i]).user_id,
        ) by {
            assert(has_user_id(m.users, m.credentials[i].user_id));
            let k = user_id_idx(m.users, m.credentials[i].user_id);
            assert(m1.users[k].id == m.users[k].id);
        }
        assert forall|i: int| 0 <= i < m1.users.len() implies (#[trigger] m1.users[i]).id
            < m1.next_user_id by {
            assert(m.users[i].id < m.next_user_id);
        }
        assert forall|i: int, j: int| #![trigger m1.users[i], m1.users[j]]
            0 <= i < j < m1.users.len() implies m1.users[i].id != m1.users[j].id && m1.users[i].name
            != m1.users[j].name by {
            assert(m.users[i].id != m.users[j].id);
            assert(m.users[i].name != m.users[j].name);
        }
    }
}

/// Rewrites the caller's presence: removed from its account's online
/// set, re-added at the end when `value` is set. Unbound callers are
/// a no-op.
pub fn update_online(db: &mut ChatDb, sender: Identity, value: bool)
    requires
        old(db)@.wf(),
    ensures
        final(db)@ == update_online_tr(old(db)@, sender, value),
        final(db)@.wf(),
{
    let ghost m0 = old(db)@;
    let ci = match find_credentials_by_conn(&db.credentials, sender) {
        None => {
            proof {
                if has_cred_conn(m0.credentials, sender) {
                    let k = cred_conn_idx(m0.credentials, sender);
                    assert(db.credentials@[k].connections@.contains(sender));
                }
            }
            return ;
        }
        Some(ci) => {
            proof {
                lemma_cred_conn_at(m0.credentials, ci as int, sender);
            }
            ci
        }
    };
    let uid = db.credentials[ci].user_id;
    let ui = match find_user_by_id(&db.users, uid) {
        None => {
            proof {
                assert(has_user_id(m0.users, m0.credentials[ci as int].user_id));
                let k = user_id_idx(m0.users, uid);
                assert(db.users@[k].id == uid);
                assert(false);
            }
            return ;
        }
        Some(ui) => {
            proof {
                lemma_user_id_at(m0.users, ui as int);
            }
            ui
        }
    };
    let old_user_copy = dup_user(&db.users[ui]);
    let mut u2 = dup_user(&db.users[ui]);
    let online2 = remove_u64(&u2.online, sender);
    u2.online = online2;
    if value {
        u2.online.push(sender);
    }
    let new_user_copy = dup_user(&u2);
    db.users.set(ui, u2);
    db.changes.push(Change::Updated(Row::UserRow(old_user_copy), Row::UserRow(new_user_copy)));
    proof {
        let u = m0.users[ui as int];
        let online2v = if value {
            without_id(u.online, sender).push(sender)
        } else {
            without_id(u.online, sender)
        };
        let u2v = UserV { online: online2v, ..u };
        assert(new_user_copy@ =~= u2v);
        assert(db@.users =~= m0.users.update(ui as int, u2v));
        assert(db@.changes =~= m0.changes.push(
            ChangeV::Updated(RowV::UserRow(u), RowV::UserRow(u2v)),
        ));
        assert(db@ =~= update_online_tr(m0, sender, value));
        lemma_update_online_wf(m0, sender, value);
    }
}

/// Lifecycle hook: a bound connection that attaches is marked online.
pub fn client_connected(db: &mut ChatDb, sender: Identity)
    requires
        old(db)@.wf(),
    ensures
        final(db)@ == update_online_tr(old(db)@, sender, true),
        final(db)@.wf(),
{
    update_online(db, sender, true);
}

/// The exact effect of a disconnect: the connection goes offline (it
/// stays bound, so a later connect resumes the session), and any
/// in-flight upload request of this connection is abandoned together
/// with its staging buffer.
pub open spec fn disconnect_tr(m: DbModel, s: Identity) -> DbModel {
    let m1 = update_online_tr(m, s, false);
    if !has_request(m1.requests, s) {
        m1
    } else {
        let ri = req_idx(m1.requests, s);
        let q = m1.requests[ri];
        let m2 = DbModel {
            requests: m1.requests.remove(ri),
            changes: m1.changes.push(ChangeV::Deleted(RowV::RequestRow(q))),
            ..m1
        };
        if !has_staging(m2.temp_files, q.file) {
            m2
        } else {
            let ti = staging_idx(m2.temp_files, q.file);
            let t = m2.temp_files[ti];
            DbModel {
                temp_files: m2.temp_files.remove(ti),
                changes: m2.changes.push(ChangeV::Deleted(RowV::StagingRow(t))),
                ..m2
            }
        }
    }
}

/// Disconnect preserves the store invariant.
pub proof fn lemma_disconnect_wf(m: DbModel, s: Identity)
    requires
        m.wf(),
    ensures
        disconnect_tr(m, s).wf(),
{
    lemma_update_online_wf(m, s, false);
    let m1 = update_online_tr(m, s, false);
    if has_request(m1.requests, s) {
        let ri = req_idx(m1.requests, s);
        let q = m1.requests[ri];
        assert(0 <= ri < m1.requests.len() && q.sender == s);
        let reqs2 = m1.requests.remove(ri);
        m1.requests.remove_ensures(ri);
        assert(has_staging(m1.temp_files, q.file));
        let ti = staging_idx(m1.temp_files, q.file);
        let t = m1.temp_files[ti];
        assert(0 <= ti < m1.temp_files.len() && t.id == q.file);
        let temps2 = m1.temp_files.remove(ti);
        m1.temp_files.remove_ensures(ti);
        let mr = disconnect_tr(m, s);
        assert(mr.requests == reqs2 && mr.temp_files == temps2);
        assert forall|k: int| 0 <= k < reqs2.len() implies has_staging(
            temps2,
            (#[trigger] reqs2[k]).file,
        ) by {
            let k0 = if k < ri {
                k
            } else {
                k + 1
            };
            assert(reqs2[k] == m1.requests[k0]);
            assert(has_staging(m1.temp_files, m1.requests[k0].file));
            let tj = staging_idx(m1.temp_files, m1.requests[k0].file);
            assert(m1.temp_files[tj].id == m1.requests[k0].file);
            // The surviving request references a staging buffer other
            // than the removed one, because request file ids are
            // distinct keys.
            assert(m1.requests[k0].file != q.file);
            assert(tj != ti);
            let tj2 = if tj < ti {
                tj
            } else {
                tj - 1
            };
            assert(temps2[tj2] == m1.temp_files[tj]);
            assert(temps2[tj2].id == reqs2[k].file);
        }
    }
}

/// Lifecycle hook: a disconnecting connection is marked offline and
/// its in-flight upload, if any, is abandoned: neither the request
/// nor the staging buffer survives.
pub fn client_disconnected(db: &mut ChatDb, sender: Identity)
    requires
        old(db)@.wf(),
    ensures
        final(db)@ == disconnect_tr(old(db)@, sender),
        final(db)@.wf(),
{
    let ghost m0 = old(db)@;
    update_online(db, sender, false);
    let ghost m1 = update_online_tr(m0, sender, false);
    proof {
        lemma_update_online_wf(m0, sender, false);
    }
    let ri = match find_request(&db.requests, sender) {
        None => {
            proof {
                if has_request(m1.requests, sender) {
                    let k = req_idx(m1.requests, sender);
                    assert(db.requests@[k].sender == sender);
                }
                assert(db@ =~= disconnect_tr(m0, sender));
            }
            return ;
        }
        Some(ri) => {
            proof {
                lemma_req_at(m1.requests, ri as int);
            }
            ri
        }
    };
    let q = db.requests[ri];
    db.requests.remove(ri);
    db.changes.push(Change::Deleted(Row::RequestRow(q)));
    let ghost m2 = DbModel {
        requests: m1.requests.remove(ri as int),
        changes: m1.changes.push(ChangeV::Deleted(RowV::RequestRow(q))),
        ..m1
    };
    proof {
        assert(db@.requests =~= m2.requests);
        assert(db@ =~= m2);
        assert(req_file_has_staging(m1.requests, m1.temp_files));
        assert(has_staging(m1.temp_files, m1.requests[ri as int].file));
        assert(m2.temp_files == m1.temp_files);
    }
    let ti = match find_temp_file(&db.temp_files, q.file) {
        None => {
            proof {
                let k = staging_idx(m2.temp_files, q.file);
                assert(db.temp_files@[k].id == q.file);
                assert(false);
            }
            return ;
        }
        Some(ti) => {
            proof {
                lemma_staging_at(m2.temp_files, ti as int);
            }
            ti
        }
    };
    let staging_copy = dup_temp_file(&db.temp_files[ti]);
    db.temp_files.remove(ti);
    db.changes.push(Change::Deleted(Row::StagingRow(staging_copy)));
    proof {
        let t = m2.temp_files[ti as int];
        assert(staging_copy@ =~= t);
        assert(db@.temp_files =~= m2.temp_files.remove(ti as int));
        assert(db@.changes =~= m2.changes.push(ChangeV::Deleted(RowV::StagingRow(t))));
        assert(db@ =~= disconnect_tr(m0, sender));
        lemma_disconnect_wf(m0, sender);
    }
}

} // verus!
