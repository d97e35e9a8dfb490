//! Chunked binary transfer: a connection declares an upload with a
//! name and a target byte count, then streams chunks that accumulate
//! in a staging buffer, in arrival order. The upload is finished
//! exactly when the accumulated length reaches the declared size;
//! the final chunk is recognized by that size, not by a flag.
use vstd::prelude::*;

verus! {

use crate::rows::{
    Change, ChangeV, CommandError, FileRequest, Identity, Row, RowV, TempFile, TempFileV,
    ValidationError, dup_temp_file,
};
use crate::store::{
    ChatDb, DbModel, cred_conn_idx, file_ids_bounded, find_credentials_by_conn, find_request,
    find_temp_file, has_cred_conn, has_request, has_staging, lemma_cred_conn_at, lemma_req_at,
    lemma_staging_at, req_file_has_staging, req_files_distinct, req_senders_distinct, req_idx,
    staging_file_disjoint, staging_ids_bounded, staging_ids_distinct, staging_idx,
};
use vstd::pervasive::VecAdditionalExecFns;

/// The exact effect of `request_stream`: rejected while an upload of
/// this connection is in flight; otherwise a fresh staging buffer and
/// a pending request keyed by the connection are created together.
pub open spec fn request_stream_tr(m: DbModel, s: Identity, name: Seq<char>, size: u64) -> (
    DbModel,
    Result<(), CommandError>,
) {
    if has_request(m.requests, s) {
        (m, Err(CommandError::Rejected(ValidationError::AlreadyInProgress)))
    } else {
        let t = TempFileV { id: m.next_temp_id, name: name, data: Seq::empty(), size: size };
        let q = FileRequest { sender: s, finished: false, file: m.next_temp_id };
        (
            DbModel {
                temp_files: m.temp_files.push(t),
                requests: m.requests.push(q),
                next_temp_id: (m.next_temp_id + 1) as u32,
                changes: m.changes.push(ChangeV::Inserted(RowV::StagingRow(t))).push(
                    ChangeV::Inserted(RowV::RequestRow(q)),
                ),
                ..m
            },
            Ok(()),
        )
    }
}

/// Declaring an upload preserves the store invariant.
pub proof fn lemma_request_stream_wf(m: DbModel, s: Identity, name: Seq<char>, size: u64)
    requires
        m.wf(),
        m.next_temp_id < u32::MAX,
    ensures
        request_stream_tr(m, s, name, size).0.wf(),
{
    if !has_request(m.requests, s) {
        let m1 = request_stream_tr(m, s, name, size).0;
        let t = TempFileV { id: m.next_temp_id, name: name, data: Seq::empty(), size: size };
        let q = FileRequest { sender: s, finished: false, file: m.next_temp_id };
        let ts1 = m.temp_files.push(t);
        let qs1 = m.requests.push(q);
        let tn = m.temp_files.len() as int;
        let qn = m.requests.len() as int;
        assert(staging_ids_distinct(ts1)) by {
            assert forall|i: int, j: int| 0 <= i < j < ts1.len() implies ts1[i].id != ts1[j].id by {
                if j < tn {
                    assert(m.temp_files[i].id != m.temp_files[j].id);
                } else {
                    assert(m.temp_files[i].id < m.next_temp_id);
                }
            }
        }
        assert(staging_ids_bounded(ts1, m1.next_temp_id)) by {
            assert forall|i: int| 0 <= i < ts1.len() implies 1 <= (#[trigger] ts1[i]).id
                < m1.next_temp_id by {
                if i < tn {
                    assert(1 <= m.temp_files[i].id < m.next_temp_id);
                }
            }
        }
        assert(file_ids_bounded(m1.files, m1.next_temp_id)) by {
            assert forall|i: int| 0 <= i < m1.files.len() implies m1.files[i].id
                < m1.next_temp_id by {
                assert(m.files[i].id < m.next_temp_id);
            }
        }
        assert(staging_file_disjoint(ts1, m1.files)) by {
            assert forall|i: int, j: int|
                0 <= i < ts1.len() && 0 <= j < m1.files.len() implies ts1[i].id
                != m1.files[j].id by {
                assert(m.files[j].id < m.next_temp_id);
                if i < tn {
                    assert(m.temp_files[i].id != m.files[j].id);
                }
            }
        }
        assert(req_senders_distinct(qs1)) by {
            assert forall|i: int, j: int|
                0 <= i < j < qs1.len() implies qs1[i].sender != qs1[j].sender by {
                if j < qn {
                    assert(m.requests[i].sender != m.requests[j].sender);
                } else {
                    assert(m.requests[i].sender != s);
                }
            }
        }
        // An existing request's staging id is a live staging id,
        // hence below the fresh id.
        assert forall|i: int| 0 <= i < qn implies (#[trigger] m.requests[i]).file
            < m.next_temp_id by {
            assert(has_staging(m.temp_files, m.requests[i].file));
            let k = staging_idx(m.temp_files, m.requests[i].file);
            assert(m.temp_files[k].id < m.next_temp_id);
        }
        assert(req_files_distinct(qs1)) by {
            assert forall|i: int, j: int| 0 <= i < j < qs1.len() implies qs1[i].file
                != qs1[j].file by {
                if j < qn {
                    assert(m.requests[i].file != m.requests[j].file);
                }
            }
        }
        assert(req_file_has_staging(qs1, ts1)) by {
            assert forall|i: int| 0 <= i < qs1.len() implies has_staging(
                ts1,
                (#[trigger] qs1[i]).file,
            ) by {
                if i < qn {
                    assert(has_staging(m.temp_files, m.requests[i].file));
                    let k = staging_idx(m.temp_files, m.requests[i].file);
                    assert(ts1[k].id == qs1[i].file);
                } else {
                    assert(ts1[tn].id == qs1[i].file);
                }
            }
        }
    }
}

/// Declares an upload of `size` bytes under the given name. At most
/// one upload per connection may be in flight.
pub fn request_stream(db: &mut ChatDb, sender: Identity, name: String, size: u64) -> (r: Result<
    (),
    CommandError,
>)
    requires
        old(db)@.wf(),
        old(db)@.next_temp_id < u32::MAX,
    ensures
        final(db)@ == request_stream_tr(old(db)@, sender, name@, size).0,
        r == request_stream_tr(old(db)@, sender, name@, size).1,
        final(db)@.wf(),
{
    let ghost m0 = old(db)@;
    match find_request(&db.requests, sender) {
        Some(i) => {
            proof {
                assert(m0.requests[i as int].sender == sender);
            }
            return Err(CommandError::Rejected(ValidationError::AlreadyInProgress));
        }
        None => {
            proof {
                if has_request(m0.requests, sender) {
                    let k = req_idx(m0.requests, sender);
                    assert(db.requests@[k].sender == sender);
                }
            }
        }
    }
    let tid = db.next_temp_id;
    let staging_row = TempFile { id: tid, name, data: Vec::new(), size };
    let staging_copy = dup_temp_file(&staging_row);
    db.temp_files.push(staging_row);
    db.changes.push(Change::Inserted(Row::StagingRow(staging_copy)));
    let q = FileRequest { sender, finished: false, file: tid };
    db.requests.push(q);
    db.changes.push(Change::Inserted(Row::RequestRow(q)));
    db.next_temp_id = tid + 1;
    proof {
        let tv = TempFileV {
            id: m0.next_temp_id,
            name: staging_copy@.name,
            data: Seq::empty(),
            size: size,
        };
        assert(staging_copy@ =~= tv);
        assert(db@.temp_files =~= m0.temp_files.push(tv));
        assert(db@.requests =~= m0.requests.push(q));
        assert(db@.changes =~= m0.changes.push(ChangeV::Inserted(RowV::StagingRow(tv))).push(
            ChangeV::Inserted(RowV::RequestRow(q)),
        ));
        assert(db@ =~= request_stream_tr(m0, sender, tv.name, size).0);
        lemma_request_stream_wf(m0, sender, tv.name, size);
    }
    Ok(())
}

/// Splits off the next outgoing chunk on the sending side: the first
/// `max` bytes of the pending data, or all of it when less remains.
/// The remainder stays behind, so that streaming the returned chunks
/// in order reassembles the original bytes.
pub fn next_chunk(data: &mut Vec<u8>, max: usize) -> (chunk: Vec<u8>)
    ensures
        chunk@ == old(data)@.subrange(0, vstd::math::min(max as int, old(data)@.len() as int)),
        final(data)@ == old(data)@.subrange(
            vstd::math::min(max as int, old(data)@.len() as int),
            old(data)@.len() as int,
        ),
{
    let cut = if max < data.len() {
        max
    } else {
        data.len()
    };
    let mut rest: Vec<u8> = Vec::new();
    let mut i: usize = cut;
    while i < data.len()
        invariant
            cut <= i <= data@.len(),
            rest@ =~= data@.subrange(cut as int, i as int),
        decreases data.len() - i,
    {
        rest.push(data[i]);
        assert(rest@ =~= data@.subrange(cut as int, i + 1 as int));
        i += 1;
    }
    data.truncate(cut);
    core::mem::swap(data, &mut rest);
    proof {
        assert(rest@ =~= old(data)@.subrange(0, cut as int));
    }
    rest
}

/// The exact effect of `send_packet`: the chunk is appended to the
/// caller's staging buffer, in arrival order, and the request is
/// marked finished exactly when the accumulated length reaches the
/// declared size.
pub open spec fn send_packet_tr(m: DbModel, s: Identity, pocket: Seq<u8>) -> (
    DbModel,
    Result<(), CommandError>,
) {
    if !has_cred_conn(m.credentials, s) {
        (m, Err(CommandError::Rejected(ValidationError::NotAuthenticated)))
    } else if !has_request(m.requests, s) {
        (m, Err(CommandError::Rejected(ValidationError::NoActiveUpload)))
    } else {
        let ri = req_idx(m.requests, s);
        let q = m.requests[ri];
        if q.finished {
            (m, Err(CommandError::Rejected(ValidationError::UploadAlreadyFinished)))
        } else {
            let ti = staging_idx(m.temp_files, q.file);
            let t = m.temp_files[ti];
            let t2 = TempFileV { data: t.data + pocket, ..t };
            let base = DbModel { temp_files: m.temp_files.update(ti, t2), ..m };
            (
                if t2.data.len() == t.size {
                    let q2 = FileRequest { finished: true, ..q };
                    DbModel {
                        requests: m.requests.update(ri, q2),
                        changes: m.changes.push(
                            ChangeV::Updated(RowV::RequestRow(q), RowV::RequestRow(q2)),
                        ).push(ChangeV::Updated(RowV::StagingRow(t), RowV::StagingRow(t2))),
                        ..base
                    }
                } else {
                    DbModel {
                        changes: m.changes.push(
                            ChangeV::Updated(RowV::StagingRow(t), RowV::StagingRow(t2)),
                        ),
                        ..base
                    }
                },
                Ok(()),
            )
        }
    }
}

/// Sending a chunk preserves the store invariant.
pub proof fn lemma_send_packet_wf(m: DbModel, s: Identity, pocket: Seq<u8>)
    requires
        m.wf(),
    ensures
        send_packet_tr(m, s, pocket).0.wf(),
{
    if has_cred_conn(m.credentials, s) && has_request(m.requests, s) {
        let ri = req_idx(m.requests, s);
        let q = m.requests[ri];
        if !q.finished {
            assert(has_staging(m.temp_files, q.file));
            let ti = staging_idx(m.temp_files, q.file);
            let t = m.temp_files[ti];
            let t2 = TempFileV { data: t.data + pocket, ..t };
            let m1 = send_packet_tr(m, s, pocket).0;
            assert(forall|i: int| #![trigger m1.temp_files[i]]
                0 <= i < m1.temp_files.len() ==> m1.temp_files[i].id == m.temp_files[i].id);
            assert(forall|i: int| #![trigger m1.requests[i]]
                0 <= i < m1.requests.len() ==> m1.requests[i].sender == m.requests[i].sender
                    && m1.requests[i].file == m.requests[i].file);
            assert forall|i: int| 0 <= i < m1.requests.len() implies has_staging(
                m1.temp_files,
                (#[trigger] m1.requests[i]).file,
            ) by {
                assert(has_staging(m.temp_files, m.requests[i].file));
                let k = staging_idx(m.temp_files, m.requests[i].file);
                assert(m1.temp_files[k].id == m1.requests[i].file);
            }
        }
    }
}

/// Appends a chunk to the caller's in-flight upload. The connection
/// must be authenticated and its upload neither absent nor already
/// finished.
pub fn send_packet(db: &mut ChatDb, sender: Identity, pocket: Vec<u8>) -> (r: Result<
    (),
    CommandError,
>)
    requires
        old(db)@.wf(),
    ensures
        final(db)@ == send_packet_tr(old(db)@, sender, pocket@).0,
        r == send_packet_tr(old(db)@, sender, pocket@).1,
        final(db)@.wf(),
{
    let ghost m0 = old(db)@;
    match find_credentials_by_conn(&db.credentials, sender) {
        Some(i) => {
            proof {
                lemma_cred_conn_at(m0.credentials, i as int, sender);
            }
        }
        None => {
            proof {
                if has_cred_conn(m0.credentials, sender) {
                    let k = cred_conn_idx(m0.credentials, sender);
                    assert(db.credentials@[k].connections@.contains(sender));
                }
            }
            return Err(CommandError::Rejected(ValidationError::NotAuthenticated));
        }
    }
    let ri = match find_request(&db.requests, sender) {
        None => {
            proof {
                if has_request(m0.requests, sender) {
                    let k = req_idx(m0.requests, sender);
                    assert(db.requests@[k].sender == sender);
                }
            }
            return Err(CommandError::Rejected(ValidationError::NoActiveUpload));
        }
        Some(ri) => {
            proof {
                lemma_req_at(m0.requests, ri as int);
            }
            ri
        }
    };
    let q = db.requests[ri];
    if q.finished {
        return Err(CommandError::Rejected(ValidationError::UploadAlreadyFinished));
    }
    let ti = match find_temp_file(&db.temp_files, q.file) {
        None => {
            proof {
                assert(has_staging(m0.temp_files, m0.requests[ri as int].file));
                let k = staging_idx(m0.temp_files, q.file);
                assert(db.temp_files@[k].id == q.file);
                assert(false);
            }
            return Err(CommandError::Internal);
        }
        Some(ti) => {
            proof {
                lemma_staging_at(m0.temp_files, ti as int);
            }
            ti
        }
    };
    let old_staging_copy = dup_temp_file(&db.temp_files[ti]);
    let mut t2 = dup_temp_file(&db.temp_files[ti]);
    let mut incoming = pocket;
    t2.data.append(&mut incoming);
    let new_staging_copy = dup_temp_file(&t2);
    let now_finished = t2.data.len() as u64 == t2.size;
    if now_finished {
        let q2 = FileRequest { sender: q.sender, finished: true, file: q.file };
        db.requests.set(ri, q2);
        db.changes.push(Change::Updated(Row::RequestRow(q), Row::RequestRow(q2)));
    }
    db.temp_files.set(ti, t2);
    db.changes.push(
        Change::Updated(Row::StagingRow(old_staging_copy), Row::StagingRow(new_staging_copy)),
    );
    proof {
        let t = m0.temp_files[ti as int];
        let t2v = TempFileV { data: t.data + pocket@, ..t };
        assert(new_staging_copy@ =~= t2v);
        assert(db@.temp_files =~= m0.temp_files.update(ti as int, t2v));
        if now_finished {
            let q2v = FileRequest { finished: true, ..q };
            assert(db@.requests =~= m0.requests.update(ri as int, q2v));
            assert(db@.changes =~= m0.changes.push(
                ChangeV::Updated(RowV::RequestRow(q), RowV::RequestRow(q2v)),
            ).push(ChangeV::Updated(RowV::StagingRow(t), RowV::StagingRow(t2v))));
        } else {
            assert(db@.requests =~= m0.requests);
            assert(db@.changes =~= m0.changes.push(
                ChangeV::Updated(RowV::StagingRow(t), RowV::StagingRow(t2v)),
            ));
        }
        assert(db@ =~= send_packet_tr(m0, sender, pocket@).0);
        lemma_send_packet_wf(m0, sender, pocket@);
    }
    Ok(())
}

} // verus!
