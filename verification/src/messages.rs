//! Message commands: sending, editing and removing messages, and the
//! atomic promotion of a finished upload into an attachment at send
//! time. Finalization is atomic with message insertion: the file row
//! and the message referencing it commit together.
use vstd::prelude::*;

verus! {

use crate::rows::{
    Change, ChangeV, CommandError, File, FileRef, FileRefV, FileV, Identity, Message, MessageV,
    Row, RowV, ValidationError, dup_file, dup_message, dup_temp_file,
};
use crate::store::{
    ChatDb, DbModel, cred_conn_idx, file_ids_bounded, file_ids_distinct, file_idx,
    find_credentials_by_conn, find_file, find_message, find_request, find_temp_file,
    find_user_by_id, has_cred_conn, has_file, has_msg, has_request, has_staging, has_user_id,
    lemma_cred_conn_at, lemma_file_at, lemma_msg_at, lemma_req_at, lemma_staging_at,
    lemma_user_id_at, msg_ids_bounded, msg_ids_distinct, msg_idx, req_file_has_staging, req_idx,
    staging_file_disjoint, staging_idx, user_id_idx,
};
use crate::text::{chars_eq, trim_of, trim_str};
use vstd::pervasive::VecAdditionalExecFns;

/// The exact effect of `send_message`: the text is trimmed; a
/// finished upload of the caller, if any, is promoted to a file and
/// attached, its request and staging buffer deleted in the same
/// transaction; a message with neither text nor attachment is
/// rejected; otherwise the message row is inserted.
pub open spec fn send_message_tr(
    m: DbModel,
    s: Identity,
    ts: u64,
    text: Seq<char>,
    reply: Option<u32>,
) -> (DbModel, Result<(), CommandError>) {
    let text2 = trim_of(text);
    if !has_cred_conn(m.credentials, s) {
        (m, Err(CommandError::Rejected(ValidationError::NotAuthenticated)))
    } else {
        let c = m.credentials[cred_conn_idx(m.credentials, s)];
        if has_request(m.requests, s) {
            let ri = req_idx(m.requests, s);
            let q = m.requests[ri];
            if !q.finished {
                (m, Err(CommandError::Rejected(ValidationError::UploadNotFinished)))
            } else {
                let ti = staging_idx(m.temp_files, q.file);
                let t = m.temp_files[ti];
                let f = FileV { id: t.id, name: t.name, data: t.data };
                let fr = FileRefV { id: t.id, name: t.name, size: t.data.len() as u64 };
                let msg = MessageV {
                    id: m.next_message_id,
                    sender: c.user_id,
                    reply,
                    edited: None,
                    sent: ts,
                    text: text2,
                    file: Some(fr),
                };
                (
                    DbModel {
                        files: m.files.push(f),
                        requests: m.requests.remove(ri),
                        temp_files: m.temp_files.remove(ti),
                        messages: m.messages.push(msg),
                        next_message_id: (m.next_message_id + 1) as u32,
                        changes: m.changes.push(ChangeV::Inserted(RowV::FileRow(f))).push(
                            ChangeV::Deleted(RowV::RequestRow(q)),
                        ).push(ChangeV::Deleted(RowV::StagingRow(t))).push(
                            ChangeV::Inserted(RowV::MessageRow(msg)),
                        ),
                        ..m
                    },
                    Ok(()),
                )
            }
        } else if text2.len() == 0 {
            (m, Err(CommandError::Rejected(ValidationError::EmptyMessage)))
        } else {
            let msg = MessageV {
                id: m.next_message_id,
                sender: c.user_id,
                reply,
                edited: None,
                sent: ts,
                text: text2,
                file: None,
            };
            (
                DbModel {
                    messages: m.messages.push(msg),
                    next_message_id: (m.next_message_id + 1) as u32,
                    changes: m.changes.push(ChangeV::Inserted(RowV::MessageRow(msg))),
                    ..m
                },
                Ok(()),
            )
        }
    }
}

/// Sending a message preserves the store invariant.
pub proof fn lemma_send_message_wf(
    m: DbModel,
    s: Identity,
    ts: u64,
    text: Seq<char>,
    reply: Option<u32>,
)
    requires
        m.wf(),
        m.next_message_id < u32::MAX,
    ensures
        send_message_tr(m, s, ts, text, reply).0.wf(),
{
    let m1 = send_message_tr(m, s, ts, text, reply).0;
    if has_cred_conn(m.credentials, s) {
        let mn = m.messages.len() as int;
        if has_request(m.requests, s) {
            let ri = req_idx(m.requests, s);
            let q = m.requests[ri];
            if q.finished {
                assert(has_staging(m.temp_files, q.file));
                let ti = staging_idx(m.temp_files, q.file);
                let t = m.temp_files[ti];
                let f = FileV { id: t.id, name: t.name, data: t.data };
                let fs1 = m.files.push(f);
                let qs1 = m.requests.remove(ri);
                let ts1 = m.temp_files.remove(ti);
                m.requests.remove_ensures(ri);
                m.temp_files.remove_ensures(ti);
                let fn0 = m.files.len() as int;
                assert(msg_ids_distinct(m1.messages)) by {
                    assert forall|i: int, j: int|
                        0 <= i < j < m1.messages.len() implies m1.messages[i].id
                        != m1.messages[j].id by {
                        if j < mn {
                            assert(m.messages[i].id != m.messages[j].id);
                        } else {
                            assert(m.messages[i].id < m.next_message_id);
                        }
                    }
                }
                assert(msg_ids_bounded(m1.messages, m1.next_message_id)) by {
                    assert forall|i: int| 0 <= i < m1.messages.len() implies (
                    #[trigger] m1.messages[i]).id < m1.next_message_id by {
                        if i < mn {
                            assert(m.messages[i].id < m.next_message_id);
                        }
                    }
                }
                assert(file_ids_distinct(fs1)) by {
                    assert forall|i: int, j: int| 0 <= i < j < fs1.len() implies fs1[i].id
                        != fs1[j].id by {
                        if j < fn0 {
                            assert(m.files[i].id != m.files[j].id);
                        } else {
                            // The promoted staging buffer's id was
                            // disjoint from every file id.
                            assert(m.temp_files[ti].id != m.files[i].id);
                        }
                    }
                }
                assert(file_ids_bounded(fs1, m1.next_temp_id)) by {
                    assert forall|i: int| 0 <= i < fs1.len() implies (#[trigger] fs1[i]).id
                        < m1.next_temp_id by {
                        if i < fn0 {
                            assert(m.files[i].id < m.next_temp_id);
                        } else {
                            assert(1 <= m.temp_files[ti].id < m.next_temp_id);
                        }
                    }
                }
                assert(staging_file_disjoint(ts1, fs1)) by {
                    assert forall|i: int, j: int|
                        0 <= i < ts1.len() && 0 <= j < fs1.len() implies ts1[i].id
                        != fs1[j].id by {
                        let i0 = if i < ti {
                            i
                        } else {
                            i + 1
                        };
                        assert(ts1[i] == m.temp_files[i0]);
                        if j < fn0 {
                            assert(m.temp_files[i0].id != m.files[j].id);
                        } else {
                            // Two distinct staging buffers never
                            // share an id.
                            assert(m.temp_files[i0].id != m.temp_files[ti].id);
                        }
                    }
                }
                assert(req_file_has_staging(qs1, ts1)) by {
                    assert forall|k: int| 0 <= k < qs1.len() implies has_staging(
                        ts1,
                        (#[trigger] qs1[k]).file,
                    ) by {
                        let k0 = if k < ri {
                            k
                        } else {
                            k + 1
                        };
                        assert(qs1[k] == m.requests[k0]);
                        assert(has_staging(m.temp_files, m.requests[k0].file));
                        let tj = staging_idx(m.temp_files, m.requests[k0].file);
                        assert(m.temp_files[tj].id == m.requests[k0].file);
                        assert(m.requests[k0].file != q.file);
                        assert(tj != ti);
                        let tj2 = if tj < ti {
                            tj
                        } else {
                            tj - 1
                        };
                        assert(ts1[tj2] == m.temp_files[tj]);
                        assert(ts1[tj2].id == qs1[k].file);
                    }
                }
            }
        } else if trim_of(text).len() != 0 {
            assert(msg_ids_distinct(m1.messages)) by {
                assert forall|i: int, j: int| 0 <= i < j < m1.messages.len() implies m1.messages[i].id
                    != m1.messages[j].id by {
                    if j < mn {
                        assert(m.messages[i].id != m.messages[j].id);
                    } else {
                        assert(m.messages[i].id < m.next_message_id);
                    }
                }
            }
            assert(msg_ids_bounded(m1.messages, m1.next_message_id)) by {
                assert forall|i: int| 0 <= i < m1.messages.len() implies (
                #[trigger] m1.messages[i]).id < m1.next_message_id by {
                    if i < mn {
                        assert(m.messages[i].id < m.next_message_id);
                    }
                }
            }
        }
    }
}

/// Sends a message with the given text, trimmed of surrounding
/// whitespace, optionally replying to another message id. A finished
/// upload of the caller becomes the message's attachment in the same
/// transaction; empty text without an attachment is rejected.
pub fn send_message(
    db: &mut ChatDb,
    sender: Identity,
    timestamp: u64,
    text: String,
    reply: Option<u32>,
) -> (r: Result<(), CommandError>)
    requires
        old(db)@.wf(),
        old(db)@.next_message_id < u32::MAX,
    ensures
        final(db)@ == send_message_tr(old(db)@, sender, timestamp, text@, reply).0,
        r == send_message_tr(old(db)@, sender, timestamp, text@, reply).1,
        final(db)@.wf(),
{
    let ghost m0 = old(db)@;
    let text2 = trim_str(text.as_str());
    let ci = match find_credentials_by_conn(&db.credentials, sender) {
        None => {
            proof {
                if has_cred_conn(m0.credentials, sender) {
                    let k = cred_conn_idx(m0.credentials, sender);
                    assert(db.credentials@[k].connections@.contains(sender));
                }
            }
            return Err(CommandError::Rejected(ValidationError::NotAuthenticated));
        }
        Some(ci) => {
            proof {
                lemma_cred_conn_at(m0.credentials, ci as int, sender);
            }
            ci
        }
    };
    let uid = db.credentials[ci].user_id;
    match find_request(&db.requests, sender) {
        Some(ri) => {
            proof {
                lemma_req_at(m0.requests, ri as int);
            }
            let q = db.requests[ri];
            if !q.finished {
                return Err(CommandError::Rejected(ValidationError::UploadNotFinished));
            }
            let ti = match find_temp_file(&db.temp_files, q.file) {
                None => {
                    proof {
                        assert(has_staging(m0.temp_files, m0.requests[ri as int].file));
                        let k = staging_idx(m0.temp_files, q.file);
                        assert(db.temp_files@[k].id == q.file);
                        assert(false);
                    }
                    return Err(CommandError::Internal);
                }
                Some(ti) => {
                    proof {
                        lemma_staging_at(m0.temp_files, ti as int);
                    }
                    ti
                }
            };
            let staging_copy = dup_temp_file(&db.temp_files[ti]);
            let staged = db.temp_files.remove(ti);
            let file_row = File { id: staged.id, name: staged.name, data: staged.data };
            let file_copy = dup_file(&file_row);
            let size = file_row.data.len() as u64;
            let fref = FileRef { id: file_row.id, name: file_row.name.clone(), size };
            db.files.push(file_row);
            db.changes.push(Change::Inserted(Row::FileRow(file_copy)));
            db.requests.remove(ri);
            db.changes.push(Change::Deleted(Row::RequestRow(q)));
            db.changes.push(Change::Deleted(Row::StagingRow(staging_copy)));
            let msg = Message {
                id: db.next_message_id,
                sender: uid,
                reply,
                edited: None,
                sent: timestamp,
                text: text2,
                file: Some(fref),
            };
            let msg_copy = dup_message(&msg);
            db.messages.push(msg);
            db.changes.push(Change::Inserted(Row::MessageRow(msg_copy)));
            db.next_message_id = db.next_message_id + 1;
            proof {
                let t = m0.temp_files[ti as int];
                let fv = FileV { id: t.id, name: t.name, data: t.data };
                let frv = FileRefV { id: t.id, name: t.name, size: t.data.len() as u64 };
                let msgv = MessageV {
                    id: m0.next_message_id,
                    sender: m0.credentials[ci as int].user_id,
                    reply,
                    edited: None,
                    sent: timestamp,
                    text: trim_of(text@),
                    file: Some(frv),
                };
                assert(file_copy@ =~= fv);
                assert(msg_copy@ =~= msgv);
                assert(db@.files =~= m0.files.push(fv));
                assert(db@.requests =~= m0.requests.remove(ri as int));
                assert(db@.temp_files =~= m0.temp_files.remove(ti as int));
                assert(db@.messages =~= m0.messages.push(msgv));
                assert(db@.changes =~= m0.changes.push(ChangeV::Inserted(RowV::FileRow(fv))).push(
                    ChangeV::Deleted(RowV::RequestRow(q)),
                ).push(ChangeV::Deleted(RowV::StagingRow(t))).push(
                    ChangeV::Inserted(RowV::MessageRow(msgv)),
                ));
                assert(db@ =~= send_message_tr(m0, sender, timestamp, text@, reply).0);
                lemma_send_message_wf(m0, sender, timestamp, text@, reply);
            }
            Ok(())
        }
        None => {
            proof {
                if has_request(m0.requests, sender) {
                    let k = req_idx(m0.requests, sender);
                    assert(db.requests@[k].sender == sender);
                }
            }
            if text2.len() == 0 {
                return Err(CommandError::Rejected(ValidationError::EmptyMessage));
            }
            let msg = Message {
                id: db.next_message_id,
                sender: uid,
                reply,
                edited: None,
                sent: timestamp,
                text: text2,
                file: None,
            };
            let msg_copy = dup_message(&msg);
            db.messages.push(msg);
            db.changes.push(Change::Inserted(Row::MessageRow(msg_copy)));
            db.next_message_id = db.next_message_id + 1;
            proof {
                let msgv = MessageV {
                    id: m0.next_message_id,
                    sender: m0.credentials[ci as int].user_id,
                    reply,
                    edited: None,
                    sent: timestamp,
                    text: trim_of(text@),
                    file: None,
                };
                assert(msg_copy@ =~= msgv);
                assert(db@.messages =~= m0.messages.push(msgv));
                assert(db@.changes =~= m0.changes.push(ChangeV::Inserted(RowV::MessageRow(msgv))));
                assert(db@ =~= send_message_tr(m0, sender, timestamp, text@, reply).0);
                lemma_send_message_wf(m0, sender, timestamp, text@, reply);
            }
            Ok(())
        }
    }
}

/// The exact effect of `edit_message`: only the original sender may
/// edit; a text equal to the stored one leaves the row's content and
/// edit timestamp unchanged (though the row is still rewritten);
/// otherwise the text is replaced and the edit timestamp set.
pub open spec fn edit_message_tr(m: DbModel, s: Identity, ts: u64, id: u32, text: Seq<char>) -> (
    DbModel,
    Result<(), CommandError>,
) {
    let text2 = trim_of(text);
    if !has_cred_conn(m.credentials, s) {
        (m, Err(CommandError::Rejected(ValidationError::NotAuthenticated)))
    } else {
        let c = m.credentials[cred_conn_idx(m.credentials, s)];
        if !has_msg(m.messages, id) {
            (m, Err(CommandError::Rejected(ValidationError::NotFound)))
        } else {
            let mi = msg_idx(m.messages, id);
            let msg = m.messages[mi];
            if c.user_id != msg.sender {
                (m, Err(CommandError::Rejected(ValidationError::PermissionDenied)))
            } else if text2.len() == 0 && msg.file is None {
                (m, Err(CommandError::Rejected(ValidationError::EmptyMessage)))
            } else {
                let msg2 = if msg.text == text2 {
                    msg
                } else {
                    MessageV { text: text2, edited: Some(ts), ..msg }
                };
                (
                    DbModel {
                        messages: m.messages.update(mi, msg2),
                        changes: m.changes.push(
                            ChangeV::Updated(RowV::MessageRow(msg), RowV::MessageRow(msg2)),
                        ),
                        ..m
                    },
                    Ok(()),
                )
            }
        }
    }
}

/// Editing a message preserves the store invariant.
pub proof fn lemma_edit_message_wf(m: DbModel, s: Identity, ts: u64, id: u32, text: Seq<char>)
    requires
        m.wf(),
    ensures
        edit_message_tr(m, s, ts, id, text).0.wf(),
{
    let m1 = edit_message_tr(m, s, ts, id, text).0;
    assert(forall|i: int| #![trigger m1.messages[i]]
        0 <= i < m1.messages.len() ==> m1.messages[i].id == m.messages[i].id);
    assert forall|i: int, j: int| #![trigger m1.messages[i], m1.messages[j]]
        0 <= i < j < m1.messages.len() implies m1.messages[i].id != m1.messages[j].id by {
        assert(m.messages[i].id != m.messages[j].id);
    }
    assert forall|i: int| 0 <= i < m1.messages.len() implies (#[trigger] m1.messages[i]).id
        < m1.next_message_id by {
        assert(m.messages[i].id < m.next_message_id);
    }
}

/// Replaces a message's text. Only the message's sender may edit it;
/// an edit to the same text changes nothing; emptying a message that
/// has no attachment is rejected.
pub fn edit_message(db: &mut ChatDb, sender: Identity, timestamp: u64, id: u32, text: String) -> (r:
    Result<(), CommandError>)
    requires
        old(db)@.wf(),
    ensures
        final(db)@ == edit_message_tr(old(db)@, sender, timestamp, id, text@).0,
        r == edit_message_tr(old(db)@, sender, timestamp, id, text@).1,
        final(db)@.wf(),
{
    let ghost m0 = old(db)@;
    let text2 = trim_str(text.as_str());
    let ci = match find_credentials_by_conn(&db.credentials, sender) {
        None => {
            proof {
                if has_cred_conn(m0.credentials, sender) {
                    let k = cred_conn_idx(m0.credentials, sender);
                    assert(db.credentials@[k].connections@.contains(sender));
                }
            }
            return Err(CommandError::Rejected(ValidationError::NotAuthenticated));
        }
        Some(ci) => {
            proof {
                lemma_cred_conn_at(m0.credentials, ci as int, sender);
            }
            ci
        }
    };
    let mi = match find_message(&db.messages, id) {
        None => {
            proof {
                if has_msg(m0.messages, id) {
                    let k = msg_idx(m0.messages, id);
                    assert(db.messages@[k].id == id);
                }
            }
            return Err(CommandError::Rejected(ValidationError::NotFound));
        }
        Some(mi) => {
            proof {
                lemma_msg_at(m0.messages, mi as int);
            }
            mi
        }
    };
    if db.credentials[ci].user_id != db.messages[mi].sender {
        return Err(CommandError::Rejected(ValidationError::PermissionDenied));
    }
    if text2.len() == 0 && db.messages[mi].file.is_none() {
        return Err(CommandError::Rejected(ValidationError::EmptyMessage));
    }
    let old_msg_copy = dup_message(&db.messages[mi]);
    let mut msg2 = dup_message(&db.messages[mi]);
    if !chars_eq(&msg2.text, &text2) {
        msg2.text = text2;
        msg2.edited = Some(timestamp);
    }
    let new_msg_copy = dup_message(&msg2);
    db.messages.set(mi, msg2);
    db.changes.push(Change::Updated(Row::MessageRow(old_msg_copy), Row::MessageRow(new_msg_copy)));
    proof {
        let msgv = m0.messages[mi as int];
        let msg2v = if msgv.text == trim_of(text@) {
            msgv
        } else {
            MessageV { text: trim_of(text@), edited: Some(timestamp), ..msgv }
        };
        assert(new_msg_copy@ =~= msg2v);
        assert(db@.messages =~= m0.messages.update(mi as int, msg2v));
        assert(db@.changes =~= m0.changes.push(
            ChangeV::Updated(RowV::MessageRow(msgv), RowV::MessageRow(msg2v)),
        ));
        assert(db@ =~= edit_message_tr(m0, sender, timestamp, id, text@).0);
        lemma_edit_message_wf(m0, sender, timestamp, id, text@);
    }
    Ok(())
}

/// The exact effect of `remove_message`: the sender of the message
/// or an administrator deletes the message row and, when the message
/// carries an attachment, the attached file row in the same
/// transaction.
pub open spec fn remove_message_tr(m: DbModel, s: Identity, id: u32) -> (
    DbModel,
    Result<(), CommandError>,
) {
    if !has_cred_conn(m.credentials, s) {
        (m, Err(CommandError::Rejected(ValidationError::NotAuthenticated)))
    } else {
        let c = m.credentials[cred_conn_idx(m.credentials, s)];
        let u = m.users[user_id_idx(m.users, c.user_id)];
        if !has_msg(m.messages, id) {
            (m, Err(CommandError::Rejected(ValidationError::NotFound)))
        } else {
            let mi = msg_idx(m.messages, id);
            let msg = m.messages[mi];
            if !(u.id == msg.sender || u.is_admin) {
                (m, Err(CommandError::Rejected(ValidationError::PermissionDenied)))
            } else {
                let dropped = DbModel {
                    messages: m.messages.remove(mi),
                    changes: m.changes.push(ChangeV::Deleted(RowV::MessageRow(msg))),
                    ..m
                };
                match msg.file {
                    Some(fr) => {
                        if has_file(m.files, fr.id) {
                            let fi = file_idx(m.files, fr.id);
                            let f = m.files[fi];
                            (
                                DbModel {
                                    files: m.files.remove(fi),
                                    messages: m.messages.remove(mi),
                                    changes: m.changes.push(ChangeV::Deleted(RowV::FileRow(f))).push(
                                        ChangeV::Deleted(RowV::MessageRow(msg)),
                                    ),
                                    ..m
                                },
                                Ok(()),
                            )
                        } else {
                            (dropped, Ok(()))
                        }
                    }
                    None => (dropped, Ok(())),
                }
            }
        }
    }
}

/// Removing a message preserves the store invariant.
pub proof fn lemma_remove_message_wf(m: DbModel, s: Identity, id: u32)
    requires
        m.wf(),
    ensures
        remove_message_tr(m, s, id).0.wf(),
{
    let m1 = remove_message_tr(m, s, id).0;
    if has_cred_conn(m.credentials, s) && has_msg(m.messages, id) {
        let c = m.credentials[cred_conn_idx(m.credentials, s)];
        let u = m.users[user_id_idx(m.users, c.user_id)];
        let mi = msg_idx(m.messages, id);
        let msg = m.messages[mi];
        if u.id == msg.sender || u.is_admin {
            assert(0 <= mi < m.messages.len());
            m.messages.remove_ensures(mi);
            let ms1 = m.messages.remove(mi);
            assert(msg_ids_distinct(ms1) && msg_ids_bounded(ms1, m.next_message_id)) by {
                assert forall|i: int| 0 <= i < ms1.len() implies exists|i0: int|
                    0 <= i0 < m.messages.len() && #[trigger] ms1[i] == m.messages[i0] && (i < mi
                        ==> i0 == i) && (i >= mi ==> i0 == i + 1) by {
                    let i0 = if i < mi {
                        i
                    } else {
                        i + 1
                    };
                    assert(ms1[i] == m.messages[i0]);
                }
            }
            match msg.file {
                Some(fr) => {
                    if has_file(m.files, fr.id) {
                        let fi = file_idx(m.files, fr.id);
                        m.files.remove_ensures(fi);
                        let fs1 = m.files.remove(fi);
                        assert forall|i: int| 0 <= i < fs1.len() implies exists|i0: int|
                            0 <= i0 < m.files.len() && #[trigger] fs1[i] == m.files[i0] && (i < fi
                                ==> i0 == i) && (i >= fi ==> i0 == i + 1) by {
                            let i0 = if i < fi {
                                i
                            } else {
                                i + 1
                            };
                            assert(fs1[i] == m.files[i0]);
                        }
                        assert(staging_file_disjoint(m1.temp_files, m1.files)) by {
                            assert forall|i: int, j: int|
                                0 <= i < m1.temp_files.len() && 0 <= j < m1.files.len() implies
                                m1.temp_files[i].id != m1.files[j].id by {
                                let j0 = if j < fi {
                                    j
                                } else {
                                    j + 1
                                };
                                assert(m1.files[j] == m.files[j0]);
                                assert(m.temp_files[i].id != m.files[j0].id);
                            }
                        }
                    }
                }
                None => {}
            }
        }
    }
}

/// Removes a message. Only the message's sender or an administrator
/// may do so; an attached file is deleted with the message.
pub fn remove_message(db: &mut ChatDb, sender: Identity, id: u32) -> (r: Result<
    (),
    CommandError,
>)
    requires
        old(db)@.wf(),
    ensures
        final(db)@ == remove_message_tr(old(db)@, sender, id).0,
        r == remove_message_tr(old(db)@, sender, id).1,
        final(db)@.wf(),
{
    let ghost m0 = old(db)@;
    let ci = match find_credentials_by_conn(&db.credentials, sender) {
        None => {
            proof {
                if has_cred_conn(m0.credentials, sender) {
                    let k = cred_conn_idx(m0.credentials, sender);
                    assert(db.credentials@[k].connections@.contains(sender));
                }
            }
            return Err(CommandError::Rejected(ValidationError::NotAuthenticated));
        }
        Some(ci) => {
            proof {
                lemma_cred_conn_at(m0.credentials, ci as int, sender);
            }
            ci
        }
    };
    let uid = db.credentials[ci].user_id;
    let ui = match find_user_by_id(&db.users, uid) {
        None => {
            proof {
                assert(has_user_id(m0.users, m0.credentials[ci as int].user_id));
                let k = user_id_idx(m0.users, uid);
                assert(db.users@[k].id == uid);
                assert(false);
            }
            return Err(CommandError::Internal);
        }
        Some(ui) => {
            proof {
                lemma_user_id_at(m0.users, ui as int);
            }
            ui
        }
    };
    let mi = match find_message(&db.messages, id) {
        None => {
            proof {
                if has_msg(m0.messages, id) {
                    let k = msg_idx(m0.messages, id);
                    assert(db.messages@[k].id == id);
                }
            }
            return Err(CommandError::Rejected(ValidationError::NotFound));
        }
        Some(mi) => {
            proof {
                lemma_msg_at(m0.messages, mi as int);
            }
            mi
        }
    };
    if !(db.users[ui].id == db.messages[mi].sender || db.users[ui].is_admin) {
        return Err(CommandError::Rejected(ValidationError::PermissionDenied));
    }
    let fid_opt = match &db.messages[mi].file {
        Some(fr) => Some(fr.id),
        None => None,
    };
    match fid_opt {
        Some(fid) => {
            match find_file(&db.files, fid) {
                Some(fi) => {
                    proof {
                        lemma_file_at(m0.files, fi as int);
                    }
                    let file_copy = dup_file(&db.files[fi]);
                    db.files.remove(fi);
                    db.changes.push(Change::Deleted(Row::FileRow(file_copy)));
                }
                None => {
                    proof {
                        if has_file(m0.files, fid) {
                            let k = file_idx(m0.files, fid);
                            assert(db.files@[k].id == fid);
                        }
                    }
                }
            }
        }
        None => {}
    }
    let msg_copy = dup_message(&db.messages[mi]);
    db.messages.remove(mi);
    db.changes.push(Change::Deleted(Row::MessageRow(msg_copy)));
    proof {
        let msgv = m0.messages[mi as int];
        assert(msg_copy@ =~= msgv);
        assert(db@.messages =~= m0.messages.remove(mi as int));
        match msgv.file {
            Some(frv) => {
                if has_file(m0.files, frv.id) {
                    let fi = file_idx(m0.files, frv.id);
                    assert(db@.files =~= m0.files.remove(fi));
                    assert(db@.changes =~= m0.changes.push(
                        ChangeV::Deleted(RowV::FileRow(m0.files[fi])),
                    ).push(ChangeV::Deleted(RowV::MessageRow(msgv))));
                } else {
                    assert(db@.changes =~= m0.changes.push(
                        ChangeV::Deleted(RowV::MessageRow(msgv)),
                    ));
                }
            }
            None => {
                assert(db@.changes =~= m0.changes.push(ChangeV::Deleted(RowV::MessageRow(msgv))));
            }
        }
        assert(db@ =~= remove_message_tr(m0, sender, id).0);
        lemma_remove_message_wf(m0, sender, id);
    }
    Ok(())
}

/// The exact effect of `upload_file`: an authenticated caller stores
/// a file under the caller-supplied key zero; the insert fails with
/// `DuplicateKey` when that key is already taken.
pub open spec fn upload_file_tr(m: DbModel, s: Identity, name: Seq<char>, data: Seq<u8>) -> (
    DbModel,
    Result<(), CommandError>,
) {
    if !has_cred_conn(m.credentials, s) {
        (m, Err(CommandError::Rejected(ValidationError::NotAuthenticated)))
    } else if has_file(m.files, 0) {
        (m, Err(CommandError::Rejected(ValidationError::DuplicateKey)))
    } else {
        let f = FileV { id: 0, name: name, data: data };
        (
            DbModel {
                files: m.files.push(f),
                changes: m.changes.push(ChangeV::Inserted(RowV::FileRow(f))),
                ..m
            },
            Ok(()),
        )
    }
}

/// Stores a whole file in one step under the fixed key zero. The
/// chunked path through `request_stream`/`send_packet` is the one
/// the transfer coordinator uses; this single-shot insert fails with
/// `DuplicateKey` once the key is taken.
pub fn upload_file(db: &mut ChatDb, sender: Identity, name: String, data: Vec<u8>) -> (r: Result<
    (),
    CommandError,
>)
    requires
        old(db)@.wf(),
    ensures
        final(db)@ == upload_file_tr(old(db)@, sender, name@, data@).0,
        r == upload_file_tr(old(db)@, sender, name@, data@).1,
        final(db)@.wf(),
{
    let ghost m0 = old(db)@;
    match find_credentials_by_conn(&db.credentials, sender) {
        None => {
            proof {
                if has_cred_conn(m0.credentials, sender) {
                    let k = cred_conn_idx(m0.credentials, sender);
                    assert(db.credentials@[k].connections@.contains(sender));
                }
            }
            return Err(CommandError::Rejected(ValidationError::NotAuthenticated));
        }
        Some(ci) => {
            proof {
                lemma_cred_conn_at(m0.credentials, ci as int, sender);
            }
        }
    }
    match find_file(&db.files, 0) {
        Some(fi) => {
            proof {
                assert(m0.files[fi as int].id == 0);
            }
            return Err(CommandError::Rejected(ValidationError::DuplicateKey));
        }
        None => {
            proof {
                if has_file(m0.files, 0) {
                    let k = file_idx(m0.files, 0);
                    assert(db.files@[k].id == 0);
                }
            }
        }
    }
    let file_row = File { id: 0, name, data };
    let file_copy = dup_file(&file_row);
    db.files.push(file_row);
    db.changes.push(Change::Inserted(Row::FileRow(file_copy)));
    proof {
        let fv = FileV { id: 0, name: file_copy@.name, data: file_copy@.data };
        assert(file_copy@ =~= fv);
        assert(db@.files =~= m0.files.push(fv));
        assert(db@.changes =~= m0.changes.push(ChangeV::Inserted(RowV::FileRow(fv))));
        assert(db@ =~= upload_file_tr(m0, sender, fv.name, fv.data).0);
        assert forall|i: int, j: int|
            0 <= i < db@.files.len() && 0 <= j < db@.files.len() && i < j implies db@.files[i].id
            != db@.files[j].id by {
            if j < m0.files.len() {
                assert(m0.files[i].id != m0.files[j].id);
            } else {
                assert(m0.files[i].id != 0);
            }
        }
        assert forall|i: int| 0 <= i < db@.files.len() implies (#[trigger] db@.files[i]).id
            < db@.next_temp_id by {
            if i < m0.files.len() {
                assert(m0.files[i].id < m0.next_temp_id);
            }
        }
        assert forall|i: int, j: int|
            0 <= i < db@.temp_files.len() && 0 <= j < db@.files.len() implies db@.temp_files[i].id
            != db@.files[j].id by {
            if j < m0.files.len() {
                assert(m0.temp_files[i].id != m0.files[j].id);
            } else {
                assert(1 <= m0.temp_files[i].id);
            }
        }
    }
    Ok(())
}

} // verus!
