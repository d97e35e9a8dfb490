//! Laws of the command engine: properties that relate several
//! commands, stated over the transition functions and proved once
//! and for all.
use vstd::prelude::*;

verus! {

use crate::auth::{login_tr, logout_tr, signup_tr};
use crate::messages::{remove_message_tr, edit_message_tr, send_message_tr};
use crate::presence::disconnect_tr;
use crate::rows::{CommandError, FileRequest, FileV, Identity, TempFileV, UserV, ValidationError};
use crate::store::{
    DbModel, cred_conn_idx, cred_uid_idx, file_idx, has_cred_conn, has_file, has_msg,
    has_request, has_staging, has_user_id, has_user_name, lemma_cred_uid_at, lemma_file_at,
    lemma_msg_at, lemma_req_at, lemma_staging_at, lemma_user_name_at, msg_idx, req_idx,
    staging_idx, user_id_idx, user_name_idx,
};
use crate::text::{lemma_push_contains, lemma_without_id, trim_of, without_id};
use crate::transfer::{lemma_send_packet_wf, send_packet_tr};
use crate::auth::{lemma_login_wf, lemma_logout_wf, lemma_signup_wf};

/// Law: an account created by `signup` can immediately be logged
/// into from a fresh connection with the same credentials, and that
/// connection lands in the account's online set.
pub proof fn lemma_signup_then_login(
    m: DbModel,
    s1: Identity,
    s2: Identity,
    name: Seq<char>,
    password: Seq<char>,
)
    requires
        m.wf(),
        m.next_user_id < u32::MAX,
        name.len() >= 3,
        password.len() >= 4,
        !has_user_name(m.users, name),
        !has_cred_conn(m.credentials, s1),
        !has_cred_conn(m.credentials, s2),
        s1 != s2,
    ensures
        ({
            let (m1, r1) = signup_tr(m, s1, name, password);
            let (m2, r2) = login_tr(m1, s2, name, password);
            &&& r1 == Ok::<(), CommandError>(())
            &&& r2 == Ok::<(), CommandError>(())
            &&& has_user_name(m2.users, name)
            &&& m2.users[user_name_idx(m2.users, name)].online.contains(s2)
        }),
{
    let (m1, r1) = signup_tr(m, s1, name, password);
    lemma_signup_wf(m, s1, name, password);
    let n = m.users.len() as int;
    let cn = m.credentials.len() as int;
    let u = UserV { id: m.next_user_id, is_admin: false, avatar: None, name, online: seq![s1] };
    assert(m1.users[n] == u);
    // The fresh connection is still unbound: the one new credential
    // binds only `s1`.
    assert(!has_cred_conn(m1.credentials, s2)) by {
        if has_cred_conn(m1.credentials, s2) {
            let k = cred_conn_idx(m1.credentials, s2);
            if k < cn {
                assert(m.credentials[k].connections.contains(s2));
            } else {
                assert(m1.credentials[k].connections == seq![s1]);
                let w = choose|w: int|
                    0 <= w < seq![s1].len() && seq![s1][w] == s2;
                assert(seq![s1][0] == s1);
            }
        }
    }
    assert(has_user_name(m1.users, name)) by {
        assert(m1.users[n].name == name);
    }
    let ui = user_name_idx(m1.users, name);
    lemma_user_name_at(m1.users, n);
    assert(ui == n);
    let ci = cred_uid_idx(m1.credentials, u.id);
    lemma_cred_uid_at(m1.credentials, cn);
    assert(m1.credentials[cn].user_id == u.id);
    assert(ci == cn);
    assert(m1.credentials[ci].password == password);
    let (m2, r2) = login_tr(m1, s2, name, password);
    lemma_login_wf(m1, s2, name, password);
    assert(r2 == Ok::<(), CommandError>(()));
    let u2 = UserV { online: u.online.push(s2), ..u };
    assert(m2.users == m1.users.update(n, u2));
    assert(has_user_name(m2.users, name)) by {
        assert(m2.users[n].name == name);
    }
    lemma_user_name_at(m2.users, n);
    assert(user_name_idx(m2.users, name) == n);
    lemma_push_contains(u.online, s2, s2);
    assert(m2.users[n].online.contains(s2));
}

/// Law: a message whose text trims to nothing and whose sender has
/// no completed upload is never inserted. An authenticated sender
/// with no upload in flight gets exactly `EmptyMessage`; in every
/// other such state the command still fails and the store is
/// untouched.
pub proof fn lemma_empty_message_rejected(
    m: DbModel,
    s: Identity,
    ts: u64,
    text: Seq<char>,
    reply: Option<u32>,
)
    requires
        m.wf(),
        trim_of(text).len() == 0,
        has_request(m.requests, s) ==> !m.requests[req_idx(m.requests, s)].finished,
    ensures
        send_message_tr(m, s, ts, text, reply).0 == m,
        send_message_tr(m, s, ts, text, reply).1 is Err,
        has_cred_conn(m.credentials, s) && !has_request(m.requests, s)
            ==> send_message_tr(m, s, ts, text, reply).1 == Err::<(), CommandError>(
            CommandError::Rejected(ValidationError::EmptyMessage),
        ),
{
}

/// The concatenation of a sequence of chunks, in submission order.
pub open spec fn concat_chunks(chunks: Seq<Seq<u8>>) -> Seq<u8>
    decreases chunks.len(),
{
    if chunks.len() == 0 {
        Seq::empty()
    } else {
        concat_chunks(chunks.drop_last()) + chunks.last()
    }
}

/// The total byte count of a sequence of chunks.
pub open spec fn total_len(chunks: Seq<Seq<u8>>) -> nat
    decreases chunks.len(),
{
    if chunks.len() == 0 {
        0
    } else {
        total_len(chunks.drop_last()) + chunks.last().len()
    }
}

pub proof fn lemma_concat_chunks_len(chunks: Seq<Seq<u8>>)
    ensures
        concat_chunks(chunks).len() == total_len(chunks),
    decreases chunks.len(),
{
    if chunks.len() > 0 {
        lemma_concat_chunks_len(chunks.drop_last());
    }
}

/// The store after the chunks have been streamed in order on
/// connection `s`, each through `send_packet`.
pub open spec fn apply_chunks(m: DbModel, s: Identity, chunks: Seq<Seq<u8>>) -> DbModel
    decreases chunks.len(),
{
    if chunks.len() == 0 {
        m
    } else {
        send_packet_tr(apply_chunks(m, s, chunks.drop_last()), s, chunks.last()).0
    }
}

/// Law: chunks accumulate in submission order. Streaming chunks
/// whose running total stays below the declared size and whose sum
/// does not exceed it appends exactly their concatenation to the
/// staging buffer, and marks the request finished exactly when the
/// accumulated length reaches the declared size.
pub proof fn lemma_chunks_accumulate(m: DbModel, s: Identity, chunks: Seq<Seq<u8>>)
    requires
        m.wf(),
        has_cred_conn(m.credentials, s),
        has_request(m.requests, s),
        !m.requests[req_idx(m.requests, s)].finished,
        ({
            let q = m.requests[req_idx(m.requests, s)];
            let t = m.temp_files[staging_idx(m.temp_files, q.file)];
            &&& t.data.len() + total_len(chunks) <= t.size
            &&& forall|k: int|
                0 <= k < chunks.len() ==> t.data.len() + total_len(#[trigger] chunks.subrange(0, k))
                    < t.size
        }),
    ensures
        ({
            let ri = req_idx(m.requests, s);
            let q = m.requests[ri];
            let ti = staging_idx(m.temp_files, q.file);
            let t = m.temp_files[ti];
            let mr = apply_chunks(m, s, chunks);
            let data2 = t.data + concat_chunks(chunks);
            &&& mr.wf()
            &&& mr.credentials == m.credentials
            &&& mr.users == m.users
            &&& mr.files == m.files
            &&& mr.messages == m.messages
            &&& mr.rooms == m.rooms
            &&& mr.next_message_id == m.next_message_id
            &&& mr.next_temp_id == m.next_temp_id
            &&& mr.temp_files == if chunks.len() == 0 {
                m.temp_files
            } else {
                m.temp_files.update(ti, TempFileV { data: data2, ..t })
            }
            &&& mr.requests == if data2.len() == t.size && chunks.len() > 0 {
                m.requests.update(ri, FileRequest { finished: true, ..q })
            } else {
                m.requests
            }
        }),
    decreases chunks.len(),
{
    let ri = req_idx(m.requests, s);
    let q = m.requests[ri];
    lemma_req_at(m.requests, ri);
    let ti = staging_idx(m.temp_files, q.file);
    assert(has_staging(m.temp_files, q.file));
    let t = m.temp_files[ti];
    lemma_staging_at(m.temp_files, ti);
    lemma_concat_chunks_len(chunks);
    if chunks.len() == 0 {
        assert(t.data.len() < t.size || t.data.len() + 0 <= t.size);
    } else {
        let pre = chunks.drop_last();
        let last = chunks.last();
        assert(chunks.subrange(0, chunks.len() - 1) =~= pre);
        // The running-total premise carries over to the prefix.
        assert forall|k: int|
            0 <= k < pre.len() implies t.data.len() + total_len(#[trigger] pre.subrange(0, k))
            < t.size by {
            assert(pre.subrange(0, k) =~= chunks.subrange(0, k));
        }
        assert(t.data.len() + total_len(pre) < t.size);
        lemma_chunks_accumulate(m, s, pre);
        let mp = apply_chunks(m, s, pre);
        lemma_concat_chunks_len(pre);
        let datap = t.data + concat_chunks(pre);
        assert(datap.len() < t.size);
        assert(mp.requests == m.requests);
        let tp = if pre.len() == 0 {
            t
        } else {
            TempFileV { data: datap, ..t }
        };
        assert(mp.temp_files[ti] == tp && tp.id == t.id && tp.size == t.size) by {
            if pre.len() == 0 {
                assert(t.data + concat_chunks(pre) =~= t.data);
            }
        }
        assert(tp.data =~= datap) by {
            if pre.len() == 0 {
                assert(t.data + concat_chunks(pre) =~= t.data);
            }
        }
        // The last chunk goes through send_packet on the prefix
        // state.
        assert(has_cred_conn(mp.credentials, s));
        lemma_req_at(mp.requests, ri);
        assert(req_idx(mp.requests, s) == ri);
        assert(!mp.requests[ri].finished);
        lemma_staging_at(mp.temp_files, ti);
        assert(staging_idx(mp.temp_files, q.file) == ti);
        let mr = send_packet_tr(mp, s, last).0;
        lemma_send_packet_wf(mp, s, last);
        assert(mr == apply_chunks(m, s, chunks));
        let data2 = t.data + concat_chunks(chunks);
        assert(tp.data + last =~= data2);
        let t2 = TempFileV { data: data2, ..t };
        assert(mr.temp_files =~= m.temp_files.update(ti, t2)) by {
            assert(mp.temp_files.update(ti, TempFileV { data: tp.data + last, ..tp })
                =~= m.temp_files.update(ti, t2));
        }
        if data2.len() == t.size {
            assert(mr.requests =~= m.requests.update(ri, FileRequest { finished: true, ..q }));
        } else {
            assert(mr.requests =~= m.requests);
        }
    }
}

/// Law: a finished upload folds into exactly one file. After chunks
/// summing to the declared size have been streamed into a fresh
/// staging buffer, the request is finished, and `send_message`
/// creates exactly one file whose bytes are the concatenation of the
/// chunks in submission order and whose length is the declared size,
/// deleting the request and the staging buffer.
pub proof fn lemma_upload_then_send(
    m: DbModel,
    s: Identity,
    chunks: Seq<Seq<u8>>,
    ts: u64,
    text: Seq<char>,
    reply: Option<u32>,
)
    requires
        m.wf(),
        m.next_message_id < u32::MAX,
        has_cred_conn(m.credentials, s),
        has_request(m.requests, s),
        !m.requests[req_idx(m.requests, s)].finished,
        chunks.len() > 0,
        ({
            let q = m.requests[req_idx(m.requests, s)];
            let t = m.temp_files[staging_idx(m.temp_files, q.file)];
            &&& t.data.len() == 0
            &&& total_len(chunks) == t.size
            &&& forall|k: int|
                0 <= k < chunks.len() ==> total_len(#[trigger] chunks.subrange(0, k)) < t.size
        }),
    ensures
        ({
            let q = m.requests[req_idx(m.requests, s)];
            let t = m.temp_files[staging_idx(m.temp_files, q.file)];
            let mr = apply_chunks(m, s, chunks);
            let (m2, r2) = send_message_tr(mr, s, ts, text, reply);
            &&& has_request(mr.requests, s) && mr.requests[req_idx(mr.requests, s)].finished
            &&& r2 == Ok::<(), CommandError>(())
            &&& m2.files == mr.files.push(
                FileV { id: t.id, name: t.name, data: concat_chunks(chunks) },
            )
            &&& m2.files.last().data == concat_chunks(chunks)
            &&& m2.files.last().data.len() == t.size
            &&& !has_request(m2.requests, s)
            &&& !has_staging(m2.temp_files, q.file)
            &&& m2.messages.len() == mr.messages.len() + 1
            &&& m2.messages.last().file == Some(
                crate::rows::FileRefV { id: t.id, name: t.name, size: t.size },
            )
        }),
{
    let ri = req_idx(m.requests, s);
    let q = m.requests[ri];
    lemma_req_at(m.requests, ri);
    let ti = staging_idx(m.temp_files, q.file);
    let t = m.temp_files[ti];
    lemma_staging_at(m.temp_files, ti);
    lemma_chunks_accumulate(m, s, chunks);
    lemma_concat_chunks_len(chunks);
    let mr = apply_chunks(m, s, chunks);
    let data2 = t.data + concat_chunks(chunks);
    assert(data2 =~= concat_chunks(chunks));
    assert(mr.requests == m.requests.update(ri, FileRequest { finished: true, ..q }));
    assert(mr.requests[ri].sender == s);
    lemma_req_at(mr.requests, ri);
    assert(has_request(mr.requests, s) && req_idx(mr.requests, s) == ri);
    assert(mr.requests[ri].finished);
    let t2 = TempFileV { data: data2, ..t };
    assert(mr.temp_files == m.temp_files.update(ti, t2));
    lemma_staging_at(mr.temp_files, ti);
    assert(staging_idx(mr.temp_files, q.file) == ti);
    let (m2, r2) = send_message_tr(mr, s, ts, text, reply);
    assert(r2 == Ok::<(), CommandError>(()));
    let f = FileV { id: t.id, name: t.name, data: data2 };
    assert(m2.files == mr.files.push(f));
    assert(f =~= FileV { id: t.id, name: t.name, data: concat_chunks(chunks) });
    assert(m2.files.last() == f);
    // The request and its staging buffer are gone.
    mr.requests.remove_ensures(ri);
    assert(!has_request(m2.requests, s)) by {
        if has_request(m2.requests, s) {
            let k = req_idx(m2.requests, s);
            let k0 = if k < ri {
                k
            } else {
                k + 1
            };
            assert(m2.requests[k] == mr.requests[k0]);
            assert(mr.requests[k0].sender == s && k0 != ri);
            assert(mr.requests[ri].sender == s);
        }
    }
    mr.temp_files.remove_ensures(ti);
    assert(!has_staging(m2.temp_files, q.file)) by {
        if has_staging(m2.temp_files, q.file) {
            let k = staging_idx(m2.temp_files, q.file);
            let k0 = if k < ti {
                k
            } else {
                k + 1
            };
            assert(m2.temp_files[k] == mr.temp_files[k0]);
            assert(mr.temp_files[k0].id == q.file && k0 != ti);
            assert(mr.temp_files[ti].id == q.file);
        }
    }
}

/// Law: removing a message with an attachment removes both rows, and
/// later lookups of either — another removal, or an edit — fail with
/// `NotFound`.
pub proof fn lemma_remove_message_removes_file(
    m: DbModel,
    s: Identity,
    id: u32,
    ts: u64,
    text: Seq<char>,
)
    requires
        m.wf(),
        has_cred_conn(m.credentials, s),
        has_msg(m.messages, id),
        ({
            let c = m.credentials[cred_conn_idx(m.credentials, s)];
            let u = m.users[user_id_idx(m.users, c.user_id)];
            let msg = m.messages[msg_idx(m.messages, id)];
            &&& (u.id == msg.sender || u.is_admin)
            &&& msg.file is Some
        }),
    ensures
        ({
            let msg = m.messages[msg_idx(m.messages, id)];
            let fid = msg.file->Some_0.id;
            let (m1, r1) = remove_message_tr(m, s, id);
            &&& r1 == Ok::<(), CommandError>(())
            &&& !has_msg(m1.messages, id)
            &&& !has_file(m1.files, fid)
            &&& remove_message_tr(m1, s, id).1 == Err::<(), CommandError>(
                CommandError::Rejected(ValidationError::NotFound),
            )
            &&& edit_message_tr(m1, s, ts, id, text).1 == Err::<(), CommandError>(
                CommandError::Rejected(ValidationError::NotFound),
            )
            &&& remove_message_tr(m1, s, id).0 == m1
            &&& edit_message_tr(m1, s, ts, id, text).0 == m1
        }),
{
    let mi = msg_idx(m.messages, id);
    lemma_msg_at(m.messages, mi);
    let msg = m.messages[mi];
    let fid = msg.file->Some_0.id;
    let (m1, r1) = remove_message_tr(m, s, id);
    crate::messages::lemma_remove_message_wf(m, s, id);
    m.messages.remove_ensures(mi);
    assert(!has_msg(m1.messages, id)) by {
        if has_msg(m1.messages, id) {
            let k = msg_idx(m1.messages, id);
            let k0 = if k < mi {
                k
            } else {
                k + 1
            };
            assert(m1.messages[k] == m.messages[k0]);
            assert(m.messages[k0].id == id && k0 != mi);
            assert(m.messages[mi].id == id);
        }
    }
    if has_file(m.files, fid) {
        let fi = file_idx(m.files, fid);
        lemma_file_at(m.files, fi);
        m.files.remove_ensures(fi);
        assert(!has_file(m1.files, fid)) by {
            if has_file(m1.files, fid) {
                let k = file_idx(m1.files, fid);
                let k0 = if k < fi {
                    k
                } else {
                    k + 1
                };
                assert(m1.files[k] == m.files[k0]);
                assert(m.files[k0].id == fid && k0 != fi);
                assert(m.files[fi].id == fid);
            }
        }
    } else {
        assert(!has_file(m1.files, fid)) by {
            if has_file(m1.files, fid) {
                let k = file_idx(m1.files, fid);
                assert(m1.files[k] == m.files[k]);
            }
        }
    }
    assert(has_cred_conn(m1.credentials, s));
}

/// Law: logging out twice is safe. The first call unbinds the
/// connection and takes it offline; the second call fails with
/// `NotAuthenticated` and changes nothing at all: the first call's
/// effect is neither reapplied nor reversed.
pub proof fn lemma_logout_twice(m: DbModel, s: Identity)
    requires
        m.wf(),
        has_cred_conn(m.credentials, s),
    ensures
        ({
            let (m1, r1) = logout_tr(m, s);
            let c = m.credentials[cred_conn_idx(m.credentials, s)];
            let ui = user_id_idx(m.users, c.user_id);
            &&& r1 == Ok::<(), CommandError>(())
            &&& !has_cred_conn(m1.credentials, s)
            &&& !m1.users[ui].online.contains(s)
            &&& logout_tr(m1, s) == (
                m1,
                Err::<(), CommandError>(CommandError::Rejected(ValidationError::NotAuthenticated)),
            )
        }),
{
    let (m1, r1) = logout_tr(m, s);
    lemma_logout_wf(m, s);
    let ci = cred_conn_idx(m.credentials, s);
    let c = m.credentials[ci];
    assert(0 <= ci < m.credentials.len() && c.connections.contains(s));
    assert(has_user_id(m.users, c.user_id));
    let ui = user_id_idx(m.users, c.user_id);
    lemma_without_id(m.users[ui].online, s, s);
    assert(m1.users[ui].online == without_id(m.users[ui].online, s));
    assert(!m1.users[ui].online.contains(s));
    assert(!has_cred_conn(m1.credentials, s)) by {
        if has_cred_conn(m1.credentials, s) {
            let k = cred_conn_idx(m1.credentials, s);
            if k == ci {
                lemma_without_id(c.connections, s, s);
                assert(!m1.credentials[ci].connections.contains(s));
            } else {
                assert(m1.credentials[k] == m.credentials[k]);
                assert(!(m.credentials[k].connections.contains(s)
                    && m.credentials[ci].connections.contains(s)));
            }
        }
    }
}

/// Law: disconnecting mid-upload leaves nothing behind. After the
/// disconnect hook runs, no request of that connection and no
/// staging buffer of its upload remain, so no later command from any
/// connection can reach them.
pub proof fn lemma_disconnect_abandons_upload(m: DbModel, s: Identity)
    requires
        m.wf(),
        has_request(m.requests, s),
    ensures
        ({
            let q = m.requests[req_idx(m.requests, s)];
            let mr = disconnect_tr(m, s);
            &&& mr.wf()
            &&& !has_request(mr.requests, s)
            &&& !has_staging(mr.temp_files, q.file)
        }),
{
    crate::presence::lemma_disconnect_wf(m, s);
    crate::presence::lemma_update_online_wf(m, s, false);
    let m1 = crate::presence::update_online_tr(m, s, false);
    assert(m1.requests == m.requests && m1.temp_files == m.temp_files);
    let ri = req_idx(m1.requests, s);
    lemma_req_at(m1.requests, ri);
    let q = m1.requests[ri];
    assert(q == m.requests[req_idx(m.requests, s)]);
    assert(has_staging(m1.temp_files, q.file));
    let ti = staging_idx(m1.temp_files, q.file);
    lemma_staging_at(m1.temp_files, ti);
    let mr = disconnect_tr(m, s);
    m1.requests.remove_ensures(ri);
    assert(!has_request(mr.requests, s)) by {
        if has_request(mr.requests, s) {
            let k = req_idx(mr.requests, s);
            let k0 = if k < ri {
                k
            } else {
                k + 1
            };
            assert(mr.requests[k] == m1.requests[k0]);
            assert(m1.requests[k0].sender == s && k0 != ri);
            assert(m1.requests[ri].sender == s);
        }
    }
    m1.temp_files.remove_ensures(ti);
    assert(!has_staging(mr.temp_files, q.file)) by {
        if has_staging(mr.temp_files, q.file) {
            let k = staging_idx(mr.temp_files, q.file);
            let k0 = if k < ti {
                k
            } else {
                k + 1
            };
            assert(mr.temp_files[k] == m1.temp_files[k0]);
            assert(m1.temp_files[k0].id == q.file && k0 != ti);
            assert(m1.temp_files[ti].id == q.file);
        }
    }
}

/// Law: a connection with no request in flight cannot touch any
/// staging state: its `send_packet` fails with `NoActiveUpload` and
/// the store is untouched.
pub proof fn lemma_no_request_no_chunk(m: DbModel, s: Identity, pocket: Seq<u8>)
    requires
        has_cred_conn(m.credentials, s),
        !has_request(m.requests, s),
    ensures
        send_packet_tr(m, s, pocket) == (
            m,
            Err::<(), CommandError>(CommandError::Rejected(ValidationError::NoActiveUpload)),
        ),
{
}

} // verus!
