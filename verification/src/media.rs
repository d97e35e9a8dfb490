//! Avatars and voice: setting an account's avatar image, and sending
//! ephemeral voice packets to the caller's current room.
use vstd::prelude::*;

verus! {

use crate::rows::{
    Change, ChangeV, CommandError, Identity, Row, RowV, UserV, ValidationError, VoicePacket,
    VoicePacketV, dup_user,
};
use crate::store::{
    ChatDb, DbModel, cred_conn_idx, find_credentials_by_conn, find_room_by_member,
    find_user_by_id, has_cred_conn, has_cred_uid, has_room_member, has_user_id,
    lemma_cred_conn_at, lemma_room_member_at, lemma_user_id_at, room_member_idx, user_id_idx,
};
use crate::text::dup_vals;
use vstd::pervasive::VecAdditionalExecFns;

/// The width and height the avatar decoder reads out of `data`, or
/// nothing when the bytes are no image. The value is fixed by the
/// image decoder and depends on the bytes alone; the library states
/// nothing about which bytes decode.
pub uninterp spec fn decoded_dims(data: Seq<u8>) -> Option<(u32, u32)>;

/// Relies on image::load_from_memory and the decoded image's width
/// and height accessors: whether a byte buffer decodes as an image,
/// and to which dimensions, is a function of the bytes alone.
#[verifier::external_body]
fn decode_dimensions(data: &Vec<u8>) -> (r: Option<(u32, u32)>)
    ensures
        r == decoded_dims(data@),
{
    match image::load_from_memory(data.as_slice()) {
        Ok(img) => Some((img.width(), img.height())),
        Err(_) => None,
    }
}

/// The exact effect of `set_avatar`, given the dimensions `dims` the
/// decoder read out of `data`: bytes that decode to a square image
/// replace the caller's avatar; anything else is `InvalidImage`.
pub open spec fn set_avatar_tr(
    m: DbModel,
    s: Identity,
    data: Seq<u8>,
    dims: Option<(u32, u32)>,
) -> (DbModel, Result<(), CommandError>) {
    if !has_cred_conn(m.credentials, s) {
        (m, Err(CommandError::Rejected(ValidationError::NotAuthenticated)))
    } else {
        match dims {
            None => (m, Err(CommandError::Rejected(ValidationError::InvalidImage))),
            Some(d) => {
                if d.0 != d.1 {
                    (m, Err(CommandError::Rejected(ValidationError::InvalidImage)))
                } else {
                    let c = m.credentials[cred_conn_idx(m.credentials, s)];
                    let ui = user_id_idx(m.users, c.user_id);
                    let u = m.users[ui];
                    let u2 = UserV { avatar: Some(data), ..u };
                    (
                        DbModel {
                            users: m.users.update(ui, u2),
                            changes: m.changes.push(
                                ChangeV::Updated(RowV::UserRow(u), RowV::UserRow(u2)),
                            ),
                            ..m
                        },
                        Ok(()),
                    )
                }
            }
        }
    }
}

/// Replacing an avatar preserves the store invariant.
pub proof fn lemma_set_avatar_wf(m: DbModel, s: Identity, data: Seq<u8>, dims: Option<(u32, u32)>)
    requires
        m.wf(),
    ensures
        set_avatar_tr(m, s, data, dims).0.wf(),
{
    let m1 = set_avatar_tr(m, s, data, dims).0;
    if has_cred_conn(m.credentials, s) && (match dims {
        Some(d) => d.0 == d.1,
        None => false,
    }) {
        let c = m.credentials[cred_conn_idx(m.credentials, s)];
        assert(has_user_id(m.users, c.user_id));
        assert(forall|i: int| #![trigger m1.users[i]]
            0 <= i < m1.users.len() ==> m1.users[i].id == m.users[i].id && m1.users[i].name
                == m.users[i].name);
        assert forall|i: int, j: int| #![trigger m1.users[i], m1.users[j]]
            0 <= i < j < m1.users.len() implies m1.users[i].id != m1.users[j].id && m1.users[i].name
            != m1.users[j].name by {
            assert(m.users[i].id != m.users[j].id);
            assert(m.users[i].name != m.users[j].name);
        }
        assert forall|i: int| 0 <= i < m1.users.len() implies (#[trigger] m1.users[i]).id
            < m1.next_user_id by {
            assert(m.users[i].id < m.next_user_id);
        }
        assert forall|i: int| 0 <= i < m1.users.len() implies has_cred_uid(
            m1.credentials,
            (#[trigger] m1.users[i]).id,
        ) by {
            assert(has_cred_uid(m.credentials, m.users[i].id));
        }
        assert forall|i: int| 0 <= i < m1.credentials.len() implies has_user_id(
            m1.users,
            (#[trigger] m1.credentials[i]).user_id,
        ) by {
            assert(has_user_id(m.users, m.credentials[i].user_id));
            let k = user_id_idx(m.users, m.credentials[i].user_id);
            assert(m1.users[k].id == m.users[k].id);
        }
    }
}

/// Applies the avatar decision for dimensions already read out of
/// the bytes: exactly square dimensions replace the caller's avatar
/// with `data`; absent or non-square dimensions are `InvalidImage`.
pub fn apply_avatar(
    db: &mut ChatDb,
    sender: Identity,
    data: Vec<u8>,
    dims: Option<(u32, u32)>,
) -> (r: Result<(), CommandError>)
    requires
        old(db)@.wf(),
    ensures
        final(db)@ == set_avatar_tr(old(db)@, sender, data@, dims).0,
        r == set_avatar_tr(old(db)@, sender, data@, dims).1,
        final(db)@.wf(),
{
    let ghost m0 = old(db)@;
    let ci = match find_credentials_by_conn(&db.credentials, sender) {
        None => {
            proof {
                if has_cred_conn(m0.credentials, sender) {
                    let k = cred_conn_idx(m0.credentials, sender);
                    assert(db.credentials@[k].connections@.contains(sender));
                }
            }
            return Err(CommandError::Rejected(ValidationError::NotAuthenticated));
        }
        Some(ci) => {
            proof {
                lemma_cred_conn_at(m0.credentials, ci as int, sender);
            }
            ci
        }
    };
    let square = match dims {
        None => {
            return Err(CommandError::Rejected(ValidationError::InvalidImage));
        }
        Some(d) => d.0 == d.1,
    };
    if !square {
        return Err(CommandError::Rejected(ValidationError::InvalidImage));
    }
    let uid = db.credentials[ci].user_id;
    let ui = match find_user_by_id(&db.users, uid) {
        None => {
            proof {
                assert(has_user_id(m0.users, m0.credentials[ci as int].user_id));
                let k = user_id_idx(m0.users, uid);
                assert(db.users@[k].id == uid);
                assert(false);
            }
            return Err(CommandError::Internal);
        }
        Some(ui) => {
            proof {
                lemma_user_id_at(m0.users, ui as int);
            }
            ui
        }
    };
    let ghost datav = data@;
    let old_user_copy = dup_user(&db.users[ui]);
    let mut u2 = dup_user(&db.users[ui]);
    u2.avatar = Some(data);
    let new_user_copy = dup_user(&u2);
    db.users.set(ui, u2);
    db.changes.push(Change::Updated(Row::UserRow(old_user_copy), Row::UserRow(new_user_copy)));
    proof {
        let u = m0.users[ui as int];
        let u2v = UserV { avatar: Some(datav), ..u };
        assert(new_user_copy@ =~= u2v);
        assert(db@.users =~= m0.users.update(ui as int, u2v));
        assert(db@.changes =~= m0.changes.push(
            ChangeV::Updated(RowV::UserRow(u), RowV::UserRow(u2v)),
        ));
        assert(db@ =~= set_avatar_tr(m0, sender, datav, dims).0);
        lemma_set_avatar_wf(m0, sender, datav, dims);
    }
    Ok(())
}

/// Replaces the caller's avatar with `data`, rejecting bytes that do
/// not decode to a square image.
pub fn set_avatar(db: &mut ChatDb, sender: Identity, data: Vec<u8>) -> (r: Result<
    (),
    CommandError,
>)
    requires
        old(db)@.wf(),
    ensures
        final(db)@ == set_avatar_tr(old(db)@, sender, data@, decoded_dims(data@)).0,
        r == set_avatar_tr(old(db)@, sender, data@, decoded_dims(data@)).1,
        final(db)@.wf(),
{
    let dims = decode_dimensions(&data);
    apply_avatar(db, sender, data, dims)
}

/// The exact effect of `send_voice_packet`: an authenticated caller
/// that is a member of a voice room appends one write-once packet
/// addressed to that room.
pub open spec fn send_voice_packet_tr(m: DbModel, s: Identity, samples: Seq<u32>) -> (
    DbModel,
    Result<(), CommandError>,
) {
    if !has_cred_conn(m.credentials, s) {
        (m, Err(CommandError::Rejected(ValidationError::NotAuthenticated)))
    } else {
        let c = m.credentials[cred_conn_idx(m.credentials, s)];
        if !has_room_member(m.rooms, c.user_id) {
            (m, Err(CommandError::Rejected(ValidationError::NotInRoom)))
        } else {
            let room = m.rooms[room_member_idx(m.rooms, c.user_id)];
            let p = VoicePacketV { room_id: room.id, sender: c.user_id, data: samples };
            (
                DbModel {
                    voice_packets: m.voice_packets.push(p),
                    changes: m.changes.push(ChangeV::Inserted(RowV::PacketRow(p))),
                    ..m
                },
                Ok(()),
            )
        }
    }
}

/// Sends a voice packet, carried as raw sample words, to the
/// caller's current voice room.
pub fn send_voice_packet(db: &mut ChatDb, sender: Identity, samples: Vec<u32>) -> (r: Result<
    (),
    CommandError,
>)
    requires
        old(db)@.wf(),
    ensures
        final(db)@ == send_voice_packet_tr(old(db)@, sender, samples@).0,
        r == send_voice_packet_tr(old(db)@, sender, samples@).1,
        final(db)@.wf(),
{
    let ghost m0 = old(db)@;
    let ci = match find_credentials_by_conn(&db.credentials, sender) {
        None => {
            proof {
                if has_cred_conn(m0.credentials, sender) {
                    let k = cred_conn_idx(m0.credentials, sender);
                    assert(db.credentials@[k].connections@.contains(sender));
                }
            }
            return Err(CommandError::Rejected(ValidationError::NotAuthenticated));
        }
        Some(ci) => {
            proof {
                lemma_cred_conn_at(m0.credentials, ci as int, sender);
            }
            ci
        }
    };
    let uid = db.credentials[ci].user_id;
    let ri = match find_room_by_member(&db.rooms, uid) {
        None => {
            proof {
                if has_room_member(m0.rooms, uid) {
                    let k = room_member_idx(m0.rooms, uid);
                    assert(db.rooms@[k].users@.contains(uid));
                }
            }
            return Err(CommandError::Rejected(ValidationError::NotInRoom));
        }
        Some(ri) => {
            proof {
                lemma_room_member_at(m0.rooms, ri as int, uid);
            }
            ri
        }
    };
    let packet = VoicePacket { room_id: db.rooms[ri].id, sender: uid, data: samples };
    let packet_copy = VoicePacket {
        room_id: packet.room_id,
        sender: packet.sender,
        data: dup_vals(&packet.data),
    };
    db.voice_packets.push(packet);
    db.changes.push(Change::Inserted(Row::PacketRow(packet_copy)));
    proof {
        let pv = VoicePacketV {
            room_id: m0.rooms[ri as int].id,
            sender: m0.credentials[ci as int].user_id,
            data: packet_copy@.data,
        };
        assert(packet_copy@ =~= pv);
        assert(db@.voice_packets =~= m0.voice_packets.push(pv));
        assert(db@.changes =~= m0.changes.push(ChangeV::Inserted(RowV::PacketRow(pv))));
        assert(db@ =~= send_voice_packet_tr(m0, sender, packet_copy@.data).0);
    }
    Ok(())
}

} // verus!
