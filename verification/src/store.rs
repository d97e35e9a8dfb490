//! The in-memory table store: typed row collections with unique key
//! indices, auto-assigned primary keys, and a queue of change records
//! that every committed mutation leaves for the replication layer.
use vstd::prelude::*;

verus! {

use crate::rows::{
    Change, ChangeV, File, FileRequest, FileV, Identity, Message, MessageV, Row, RowV, TempFile,
    TempFileV, User, UserCredentials, UserCredentialsV, UserV, VoicePacket, VoicePacketV,
    VoiceRoom, VoiceRoomV, dup_room,
};

/// The table store. Rows live in plain vectors; the key and index
/// discipline is the well-formedness invariant [`DbModel::wf`], which
/// every command preserves.
pub struct ChatDb {
    pub users: Vec<User>,
    pub credentials: Vec<UserCredentials>,
    pub messages: Vec<Message>,
    pub requests: Vec<FileRequest>,
    pub temp_files: Vec<TempFile>,
    pub files: Vec<File>,
    pub rooms: Vec<VoiceRoom>,
    pub voice_packets: Vec<VoicePacket>,
    pub next_user_id: u32,
    pub next_message_id: u32,
    pub next_temp_id: u32,
    pub next_room_id: u32,
    pub changes: Vec<Change>,
}

/// The mathematical state of the store: one sequence per table, the
/// auto-increment counters, and the queued change records.
#[verifier::ext_equal]
pub struct DbModel {
    pub users: Seq<UserV>,
    pub credentials: Seq<UserCredentialsV>,
    pub messages: Seq<MessageV>,
    pub requests: Seq<FileRequest>,
    pub temp_files: Seq<TempFileV>,
    pub files: Seq<FileV>,
    pub rooms: Seq<VoiceRoomV>,
    pub voice_packets: Seq<VoicePacketV>,
    pub next_user_id: u32,
    pub next_message_id: u32,
    pub next_temp_id: u32,
    pub next_room_id: u32,
    pub changes: Seq<ChangeV>,
}

impl View for ChatDb {
    type V = DbModel;

    open spec fn view(&self) -> DbModel {
        DbModel {
            users: self.users@.map_values(|r: User| r@),
            credentials: self.credentials@.map_values(|r: UserCredentials| r@),
            messages: self.messages@.map_values(|r: Message| r@),
            requests: self.requests@.map_values(|r: FileRequest| r@),
            temp_files: self.temp_files@.map_values(|r: TempFile| r@),
            files: self.files@.map_values(|r: File| r@),
            rooms: self.rooms@.map_values(|r: VoiceRoom| r@),
            voice_packets: self.voice_packets@.map_values(|r: VoicePacket| r@),
            next_user_id: self.next_user_id,
            next_message_id: self.next_message_id,
            next_temp_id: self.next_temp_id,
            next_room_id: self.next_room_id,
            changes: self.changes@.map_values(|r: Change| r@),
        }
    }
}

// Point lookups over the model, one pair per unique index: whether a
// key is present, and the index of its row.
pub open spec fn has_user_id(users: Seq<UserV>, id: u32) -> bool {
    exists|i: int| 0 <= i < users.len() && #[trigger] users[i].id == id
}

pub open spec fn user_id_idx(users: Seq<UserV>, id: u32) -> int {
    choose|i: int| 0 <= i < users.len() && #[trigger] users[i].id == id
}

pub open spec fn has_user_name(users: Seq<UserV>, name: Seq<char>) -> bool {
    exists|i: int| 0 <= i < users.len() && #[trigger] users[i].name == name
}

pub open spec fn user_name_idx(users: Seq<UserV>, name: Seq<char>) -> int {
    choose|i: int| 0 <= i < users.len() && #[trigger] users[i].name == name
}

pub open spec fn has_cred_uid(creds: Seq<UserCredentialsV>, uid: u32) -> bool {
    exists|i: int| 0 <= i < creds.len() && #[trigger] creds[i].user_id == uid
}

pub open spec fn cred_uid_idx(creds: Seq<UserCredentialsV>, uid: u32) -> int {
    choose|i: int| 0 <= i < creds.len() && #[trigger] creds[i].user_id == uid
}

/// Whether the connection `s` is bound to some account: the
/// authentication test of every command.
pub open spec fn has_cred_conn(creds: Seq<UserCredentialsV>, s: Identity) -> bool {
    exists|i: int| 0 <= i < creds.len() && #[trigger] creds[i].connections.contains(s)
}

pub open spec fn cred_conn_idx(creds: Seq<UserCredentialsV>, s: Identity) -> int {
    choose|i: int| 0 <= i < creds.len() && #[trigger] creds[i].connections.contains(s)
}

pub open spec fn has_msg(msgs: Seq<MessageV>, id: u32) -> bool {
    exists|i: int| 0 <= i < msgs.len() && #[trigger] msgs[i].id == id
}

pub open spec fn msg_idx(msgs: Seq<MessageV>, id: u32) -> int {
    choose|i: int| 0 <= i < msgs.len() && #[trigger] msgs[i].id == id
}

pub open spec fn has_request(reqs: Seq<FileRequest>, s: Identity) -> bool {
    exists|i: int| 0 <= i < reqs.len() && #[trigger] reqs[i].sender == s
}

pub open spec fn req_idx(reqs: Seq<FileRequest>, s: Identity) -> int {
    choose|i: int| 0 <= i < reqs.len() && #[trigger] reqs[i].sender == s
}

pub open spec fn has_staging(ts: Seq<TempFileV>, id: u32) -> bool {
    exists|i: int| 0 <= i < ts.len() && #[trigger] ts[i].id == id
}

pub open spec fn staging_idx(ts: Seq<TempFileV>, id: u32) -> int {
    choose|i: int| 0 <= i < ts.len() && #[trigger] ts[i].id == id
}

pub open spec fn has_file(fs: Seq<FileV>, id: u32) -> bool {
    exists|i: int| 0 <= i < fs.len() && #[trigger] fs[i].id == id
}

pub open spec fn file_idx(fs: Seq<FileV>, id: u32) -> int {
    choose|i: int| 0 <= i < fs.len() && #[trigger] fs[i].id == id
}

pub open spec fn has_room_id(rooms: Seq<VoiceRoomV>, id: u32) -> bool {
    exists|i: int| 0 <= i < rooms.len() && #[trigger] rooms[i].id == id
}

pub open spec fn room_id_idx(rooms: Seq<VoiceRoomV>, id: u32) -> int {
    choose|i: int| 0 <= i < rooms.len() && #[trigger] rooms[i].id == id
}

/// Whether account `a` is a member of some voice room.
pub open spec fn has_room_member(rooms: Seq<VoiceRoomV>, a: u32) -> bool {
    exists|i: int| 0 <= i < rooms.len() && #[trigger] rooms[i].users.contains(a)
}

pub open spec fn room_member_idx(rooms: Seq<VoiceRoomV>, a: u32) -> int {
    choose|i: int| 0 <= i < rooms.len() && #[trigger] rooms[i].users.contains(a)
}

// The well-formedness invariant, split by table.
pub open spec fn user_ids_distinct(users: Seq<UserV>) -> bool {
    forall|i: int, j: int| #![trigger users[i], users[j]]
        0 <= i < j < users.len() ==> users[i].id != users[j].id
}

pub open spec fn user_names_distinct(users: Seq<UserV>) -> bool {
    forall|i: int, j: int| #![trigger users[i], users[j]]
        0 <= i < j < users.len() ==> users[i].name != users[j].name
}

pub open spec fn user_ids_bounded(users: Seq<UserV>, next: u32) -> bool {
    forall|i: int| 0 <= i < users.len() ==> (#[trigger] users[i].id) < next
}

pub open spec fn cred_uids_distinct(creds: Seq<UserCredentialsV>) -> bool {
    forall|i: int, j: int| #![trigger creds[i], creds[j]]
        0 <= i < j < creds.len() ==> creds[i].user_id != creds[j].user_id
}

/// Every credential belongs to an existing account: accounts and
/// credentials are created together and never independently orphaned.
pub open spec fn cred_uids_exist(creds: Seq<UserCredentialsV>, users: Seq<UserV>) -> bool {
    forall|i: int| 0 <= i < creds.len() ==> has_user_id(users, #[trigger] creds[i].user_id)
}

/// Every account has a credential row: the two are created together
/// by signup.
pub open spec fn user_uids_have_cred(users: Seq<UserV>, creds: Seq<UserCredentialsV>) -> bool {
    forall|i: int| 0 <= i < users.len() ==> has_cred_uid(creds, (#[trigger] users[i]).id)
}

/// A connection identity is bound to at most one credential at a
/// time: single active login per connection.
pub open spec fn conn_in_one_credential(creds: Seq<UserCredentialsV>) -> bool {
    forall|i: int, j: int, x: Identity|
        #![trigger creds[i].connections.contains(x), creds[j].connections.contains(x)]
        0 <= i < creds.len() && 0 <= j < creds.len() && i != j ==> !(creds[i].connections.contains(
            x,
        ) && creds[j].connections.contains(x))
}

pub open spec fn msg_ids_distinct(msgs: Seq<MessageV>) -> bool {
    forall|i: int, j: int| #![trigger msgs[i], msgs[j]]
        0 <= i < j < msgs.len() ==> msgs[i].id != msgs[j].id
}

pub open spec fn msg_ids_bounded(msgs: Seq<MessageV>, next: u32) -> bool {
    forall|i: int| 0 <= i < msgs.len() ==> (#[trigger] msgs[i].id) < next
}

pub open spec fn req_senders_distinct(reqs: Seq<FileRequest>) -> bool {
    forall|i: int, j: int| #![trigger reqs[i], reqs[j]]
        0 <= i < j < reqs.len() ==> reqs[i].sender != reqs[j].sender
}

pub open spec fn req_files_distinct(reqs: Seq<FileRequest>) -> bool {
    forall|i: int, j: int| #![trigger reqs[i], reqs[j]]
        0 <= i < j < reqs.len() ==> reqs[i].file != reqs[j].file
}

/// Every in-flight request points at an existing staging buffer.
pub open spec fn req_file_has_staging(reqs: Seq<FileRequest>, ts: Seq<TempFileV>) -> bool {
    forall|i: int| 0 <= i < reqs.len() ==> has_staging(ts, (#[trigger] reqs[i]).file)
}

pub open spec fn staging_ids_distinct(ts: Seq<TempFileV>) -> bool {
    forall|i: int, j: int| #![trigger ts[i], ts[j]] 0 <= i < j < ts.len() ==> ts[i].id != ts[j].id
}

pub open spec fn staging_ids_bounded(ts: Seq<TempFileV>, next: u32) -> bool {
    forall|i: int| 0 <= i < ts.len() ==> 1 <= (#[trigger] ts[i].id) < next
}

pub open spec fn file_ids_distinct(fs: Seq<FileV>) -> bool {
    forall|i: int, j: int| #![trigger fs[i], fs[j]] 0 <= i < j < fs.len() ==> fs[i].id != fs[j].id
}

pub open spec fn file_ids_bounded(fs: Seq<FileV>, next: u32) -> bool {
    forall|i: int| 0 <= i < fs.len() ==> (#[trigger] fs[i].id) < next
}

/// A staging buffer and a finalized file never share an id, so that
/// promoting a staging buffer cannot collide with an existing file.
pub open spec fn staging_file_disjoint(ts: Seq<TempFileV>, fs: Seq<FileV>) -> bool {
    forall|i: int, j: int| #![trigger ts[i], fs[j]]
        0 <= i < ts.len() && 0 <= j < fs.len() ==> ts[i].id != fs[j].id
}

pub open spec fn room_ids_distinct(rooms: Seq<VoiceRoomV>) -> bool {
    forall|i: int, j: int| #![trigger rooms[i], rooms[j]]
        0 <= i < j < rooms.len() ==> rooms[i].id != rooms[j].id
}

pub open spec fn room_ids_bounded(rooms: Seq<VoiceRoomV>, next: u32) -> bool {
    forall|i: int| 0 <= i < rooms.len() ==> (#[trigger] rooms[i].id) < next
}

/// An account is a member of at most one voice room, so that the
/// caller's current room is well defined.
pub open spec fn room_member_in_one(rooms: Seq<VoiceRoomV>) -> bool {
    forall|i: int, j: int, a: u32|
        #![trigger rooms[i].users.contains(a), rooms[j].users.contains(a)]
        0 <= i < rooms.len() && 0 <= j < rooms.len() && i != j ==> !(rooms[i].users.contains(a)
            && rooms[j].users.contains(a))
}

impl DbModel {
    /// The key and index discipline of the store. Established by
    /// [`ChatDb::new`] and preserved by every command.
    pub open spec fn wf(self) -> bool {
        &&& user_ids_distinct(self.users)
        &&& user_names_distinct(self.users)
        &&& user_ids_bounded(self.users, self.next_user_id)
        &&& cred_uids_distinct(self.credentials)
        &&& cred_uids_exist(self.credentials, self.users)
        &&& user_uids_have_cred(self.users, self.credentials)
        &&& conn_in_one_credential(self.credentials)
        &&& msg_ids_distinct(self.messages)
        &&& msg_ids_bounded(self.messages, self.next_message_id)
        &&& req_senders_distinct(self.requests)
        &&& req_files_distinct(self.requests)
        &&& req_file_has_staging(self.requests, self.temp_files)
        &&& staging_ids_distinct(self.temp_files)
        &&& staging_ids_bounded(self.temp_files, self.next_temp_id)
        &&& file_ids_distinct(self.files)
        &&& file_ids_bounded(self.files, self.next_temp_id)
        &&& staging_file_disjoint(self.temp_files, self.files)
        &&& self.next_temp_id >= 1
        &&& room_ids_distinct(self.rooms)
        &&& room_ids_bounded(self.rooms, self.next_room_id)
        &&& room_member_in_one(self.rooms)
    }
}

/// The empty store: no rows, no queued changes, all counters at one.
pub open spec fn init_model() -> DbModel {
    DbModel {
        users: Seq::empty(),
        credentials: Seq::empty(),
        messages: Seq::empty(),
        requests: Seq::empty(),
        temp_files: Seq::empty(),
        files: Seq::empty(),
        rooms: Seq::empty(),
        voice_packets: Seq::empty(),
        next_user_id: 1,
        next_message_id: 1,
        next_temp_id: 1,
        next_room_id: 1,
        changes: Seq::empty(),
    }
}

// Bridging lemmas: a row found at some index is the row the model's
// point lookup denotes, because the key is unique.
pub proof fn lemma_user_id_at(users: Seq<UserV>, i: int)
    requires
        user_ids_distinct(users),
        0 <= i < users.len(),
    ensures
        has_user_id(users, users[i].id),
        user_id_idx(users, users[i].id) == i,
{
    let id = users[i].id;
    assert(has_user_id(users, id));
    let j = user_id_idx(users, id);
    if i < j {
        assert(users[i].id != users[j].id);
    } else if j < i {
        assert(users[j].id != users[i].id);
    }
}

pub proof fn lemma_user_name_at(users: Seq<UserV>, i: int)
    requires
        user_names_distinct(users),
        0 <= i < users.len(),
    ensures
        has_user_name(users, users[i].name),
        user_name_idx(users, users[i].name) == i,
{
    let nm = users[i].name;
    assert(has_user_name(users, nm));
    let j = user_name_idx(users, nm);
    if i < j {
        assert(users[i].name != users[j].name);
    } else if j < i {
        assert(users[j].name != users[i].name);
    }
}

pub proof fn lemma_cred_uid_at(creds: Seq<UserCredentialsV>, i: int)
    requires
        cred_uids_distinct(creds),
        0 <= i < creds.len(),
    ensures
        has_cred_uid(creds, creds[i].user_id),
        cred_uid_idx(creds, creds[i].user_id) == i,
{
    let uid = creds[i].user_id;
    assert(has_cred_uid(creds, uid));
    let j = cred_uid_idx(creds, uid);
    if i < j {
        assert(creds[i].user_id != creds[j].user_id);
    } else if j < i {
        assert(creds[j].user_id != creds[i].user_id);
    }
}

pub proof fn lemma_cred_conn_at(creds: Seq<UserCredentialsV>, i: int, s: Identity)
    requires
        conn_in_one_credential(creds),
        0 <= i < creds.len(),
        creds[i].connections.contains(s),
    ensures
        has_cred_conn(creds, s),
        cred_conn_idx(creds, s) == i,
{
    assert(has_cred_conn(creds, s));
    let j = cred_conn_idx(creds, s);
    if i != j {
        assert(!(creds[i].connections.contains(s) && creds[j].connections.contains(s)));
    }
}

pub proof fn lemma_msg_at(msgs: Seq<MessageV>, i: int)
    requires
        msg_ids_distinct(msgs),
        0 <= i < msgs.len(),
    ensures
        has_msg(msgs, msgs[i].id),
        msg_idx(msgs, msgs[i].id) == i,
{
    let id = msgs[i].id;
    assert(has_msg(msgs, id));
    let j = msg_idx(msgs, id);
    if i < j {
        assert(msgs[i].id != msgs[j].id);
    } else if j < i {
        assert(msgs[j].id != msgs[i].id);
    }
}

pub proof fn lemma_req_at(reqs: Seq<FileRequest>, i: int)
    requires
        req_senders_distinct(reqs),
        0 <= i < reqs.len(),
    ensures
        has_request(reqs, reqs[i].sender),
        req_idx(reqs, reqs[i].sender) == i,
{
    let s = reqs[i].sender;
    assert(has_request(reqs, s));
    let j = req_idx(reqs, s);
    if i < j {
        assert(reqs[i].sender != reqs[j].sender);
    } else if j < i {
        assert(reqs[j].sender != reqs[i].sender);
    }
}

pub proof fn lemma_staging_at(ts: Seq<TempFileV>, i: int)
    requires
        staging_ids_distinct(ts),
        0 <= i < ts.len(),
    ensures
        has_staging(ts, ts[i].id),
        staging_idx(ts, ts[i].id) == i,
{
    let id = ts[i].id;
    assert(has_staging(ts, id));
    let j = staging_idx(ts, id);
    if i < j {
        assert(ts[i].id != ts[j].id);
    } else if j < i {
        assert(ts[j].id != ts[i].id);
    }
}

pub proof fn lemma_file_at(fs: Seq<FileV>, i: int)
    requires
        file_ids_distinct(fs),
        0 <= i < fs.len(),
    ensures
        has_file(fs, fs[i].id),
        file_idx(fs, fs[i].id) == i,
{
    let id = fs[i].id;
    assert(has_file(fs, id));
    let j = file_idx(fs, id);
    if i < j {
        assert(fs[i].id != fs[j].id);
    } else if j < i {
        assert(fs[j].id != fs[i].id);
    }
}

pub proof fn lemma_room_id_at(rooms: Seq<VoiceRoomV>, i: int)
    requires
        room_ids_distinct(rooms),
        0 <= i < rooms.len(),
    ensures
        has_room_id(rooms, rooms[i].id),
        room_id_idx(rooms, rooms[i].id) == i,
{
    let id = rooms[i].id;
    assert(has_room_id(rooms, id));
    let j = room_id_idx(rooms, id);
    if i < j {
        assert(rooms[i].id != rooms[j].id);
    } else if j < i {
        assert(rooms[j].id != rooms[i].id);
    }
}

pub proof fn lemma_room_member_at(rooms: Seq<VoiceRoomV>, i: int, a: u32)
    requires
        room_member_in_one(rooms),
        0 <= i < rooms.len(),
        rooms[i].users.contains(a),
    ensures
        has_room_member(rooms, a),
        room_member_idx(rooms, a) == i,
{
    assert(has_room_member(rooms, a));
    let j = room_member_idx(rooms, a);
    if i != j {
        assert(!(rooms[i].users.contains(a) && rooms[j].users.contains(a)));
    }
}

// Executable point lookups, one per unique index. Each returns the
// position of the matching row, or None when no row matches.
pub fn find_user_by_id(users: &Vec<User>, id: u32) -> (r: Option<usize>)
    ensures
        match r {
            Some(i) => i < users.len() && users@[i as int].id == id,
            None => forall|k: int| 0 <= k < users@.len() ==> (#[trigger] users@[k].id) != id,
        },
{
    let mut i: usize = 0;
    while i < users.len()
        invariant
            i <= users.len(),
            forall|k: int| 0 <= k < i ==> (#[trigger] users@[k].id) != id,
        decreases users.len() - i,
    {
        if users[i].id == id {
            return Some(i);
        }
        i += 1;
    }
    None
}

pub fn find_user_by_name(users: &Vec<User>, name: &String) -> (r: Option<usize>)
    ensures
        match r {
            Some(i) => i < users.len() && users@[i as int].name@ == name@,
            None => forall|k: int| 0 <= k < users@.len() ==> (#[trigger] users@[k].name@) != name@,
        },
{
    let mut i: usize = 0;
    while i < users.len()
        invariant
            i <= users.len(),
            forall|k: int| 0 <= k < i ==> (#[trigger] users@[k].name@) != name@,
        decreases users.len() - i,
    {
        if users[i].name == *name {
            return Some(i);
        }
        i += 1;
    }
    None
}

pub fn find_credentials_by_uid(creds: &Vec<UserCredentials>, uid: u32) -> (r: Option<usize>)
    ensures
        match r {
            Some(i) => i < creds.len() && creds@[i as int].user_id == uid,
            None => forall|k: int| 0 <= k < creds@.len() ==> (#[trigger] creds@[k].user_id) != uid,
        },
{
    let mut i: usize = 0;
    while i < creds.len()
        invariant
            i <= creds.len(),
            forall|k: int| 0 <= k < i ==> (#[trigger] creds@[k].user_id) != uid,
        decreases creds.len() - i,
    {
        if creds[i].user_id == uid {
            return Some(i);
        }
        i += 1;
    }
    None
}

/// The credential the connection `s` is bound to, if any: the store's
/// authentication lookup.
pub fn find_credentials_by_conn(creds: &Vec<UserCredentials>, s: Identity) -> (r: Option<usize>)
    ensures
        match r {
            Some(i) => i < creds.len() && creds@[i as int].connections@.contains(s),
            None => forall|k: int|
                0 <= k < creds@.len() ==> !(#[trigger] creds@[k].connections@.contains(s)),
        },
{
    let mut i: usize = 0;
    while i < creds.len()
        invariant
            i <= creds.len(),
            forall|k: int| 0 <= k < i ==> !(#[trigger] creds@[k].connections@.contains(s)),
        decreases creds.len() - i,
    {
        if crate::text::contains_u64(&creds[i].connections, s) {
            return Some(i);
        }
        i += 1;
    }
    None
}

pub fn find_message(msgs: &Vec<Message>, id: u32) -> (r: Option<usize>)
    ensures
        match r {
            Some(i) => i < msgs.len() && msgs@[i as int].id == id,
            None => forall|k: int| 0 <= k < msgs@.len() ==> (#[trigger] msgs@[k].id) != id,
        },
{
    let mut i: usize = 0;
    while i < msgs.len()
        invariant
            i <= msgs.len(),
            forall|k: int| 0 <= k < i ==> (#[trigger] msgs@[k].id) != id,
        decreases msgs.len() - i,
    {
        if msgs[i].id == id {
            return Some(i);
        }
        i += 1;
    }
    None
}

pub fn find_request(reqs: &Vec<FileRequest>, s: Identity) -> (r: Option<usize>)
    ensures
        match r {
            Some(i) => i < reqs.len() && reqs@[i as int].sender == s,
            None => forall|k: int| 0 <= k < reqs@.len() ==> (#[trigger] reqs@[k].sender) != s,
        },
{
    let mut i: usize = 0;
    while i < reqs.len()
        invariant
            i <= reqs.len(),
            forall|k: int| 0 <= k < i ==> (#[trigger] reqs@[k].sender) != s,
        decreases reqs.len() - i,
    {
        if reqs[i].sender == s {
            return Some(i);
        }
        i += 1;
    }
    None
}

pub fn find_temp_file(ts: &Vec<TempFile>, id: u32) -> (r: Option<usize>)
    ensures
        match r {
            Some(i) => i < ts.len() && ts@[i as int].id == id,
            None => forall|k: int| 0 <= k < ts@.len() ==> (#[trigger] ts@[k].id) != id,
        },
{
    let mut i: usize = 0;
    while i < ts.len()
        invariant
            i <= ts.len(),
            forall|k: int| 0 <= k < i ==> (#[trigger] ts@[k].id) != id,
        decreases ts.len() - i,
    {
        if ts[i].id == id {
            return Some(i);
        }
        i += 1;
    }
    None
}

pub fn find_file(fs: &Vec<File>, id: u32) -> (r: Option<usize>)
    ensures
        match r {
            Some(i) => i < fs.len() && fs@[i as int].id == id,
            None => forall|k: int| 0 <= k < fs@.len() ==> (#[trigger] fs@[k].id) != id,
        },
{
    let mut i: usize = 0;
    while i < fs.len()
        invariant
            i <= fs.len(),
            forall|k: int| 0 <= k < i ==> (#[trigger] fs@[k].id) != id,
        decreases fs.len() - i,
    {
        if fs[i].id == id {
            return Some(i);
        }
        i += 1;
    }
    None
}

pub fn find_room_by_id(rooms: &Vec<VoiceRoom>, id: u32) -> (r: Option<usize>)
    ensures
        match r {
            Some(i) => i < rooms.len() && rooms@[i as int].id == id,
            None => forall|k: int| 0 <= k < rooms@.len() ==> (#[trigger] rooms@[k].id) != id,
        },
{
    let mut i: usize = 0;
    while i < rooms.len()
        invariant
            i <= rooms.len(),
            forall|k: int| 0 <= k < i ==> (#[trigger] rooms@[k].id) != id,
        decreases rooms.len() - i,
    {
        if rooms[i].id == id {
            return Some(i);
        }
        i += 1;
    }
    None
}

/// The room the account `a` is a member of, if any.
pub fn find_room_by_member(rooms: &Vec<VoiceRoom>, a: u32) -> (r: Option<usize>)
    ensures
        match r {
            Some(i) => i < rooms.len() && rooms@[i as int].users@.contains(a),
            None => forall|k: int|
                0 <= k < rooms@.len() ==> !(#[trigger] rooms@[k].users@.contains(a)),
        },
{
    let mut i: usize = 0;
    while i < rooms.len()
        invariant
            i <= rooms.len(),
            forall|k: int| 0 <= k < i ==> !(#[trigger] rooms@[k].users@.contains(a)),
        decreases rooms.len() - i,
    {
        if crate::text::contains_u32(&rooms[i].users, a) {
            return Some(i);
        }
        i += 1;
    }
    None
}

impl ChatDb {
    /// A fresh, empty store.
    pub fn new() -> (r: ChatDb)
        ensures
            r@ == init_model(),
            r@.wf(),
    {
        let db = ChatDb {
            users: Vec::new(),
            credentials: Vec::new(),
            messages: Vec::new(),
            requests: Vec::new(),
            temp_files: Vec::new(),
            files: Vec::new(),
            rooms: Vec::new(),
            voice_packets: Vec::new(),
            next_user_id: 1,
            next_message_id: 1,
            next_temp_id: 1,
            next_room_id: 1,
            changes: Vec::new(),
        };
        proof {
            assert(db@ =~= init_model());
        }
        db
    }

    /// Drains the queued change records: the commit point at which
    /// the replication layer takes over.
    pub fn take_changes(&mut self) -> (out: Vec<Change>)
        ensures
            out@.map_values(|c: Change| c@) == old(self)@.changes,
            final(self)@ == (DbModel { changes: Seq::empty(), ..old(self)@ }),
            old(self)@.wf() ==> final(self)@.wf(),
    {
        let mut out: Vec<Change> = Vec::new();
        core::mem::swap(&mut self.changes, &mut out);
        proof {
            assert(self@ =~= (DbModel { changes: Seq::empty(), ..old(self)@ }));
        }
        out
    }

    /// Creates a voice room with the given members and returns its
    /// id. Part of the store surface rather than the client-facing
    /// command catalog: rooms are provisioned by the operator.
    pub fn insert_room(&mut self, members: Vec<u32>) -> (r: u32)
        requires
            old(self)@.wf(),
            old(self)@.next_room_id < u32::MAX,
            forall|a: u32| !has_room_member(old(self)@.rooms, a) || !members@.contains(a),
        ensures
            r == old(self)@.next_room_id,
            final(self)@ == (DbModel {
                rooms: old(self)@.rooms.push(
                    VoiceRoomV { id: old(self)@.next_room_id, users: members@ },
                ),
                next_room_id: (old(self)@.next_room_id + 1) as u32,
                changes: old(self)@.changes.push(
                    ChangeV::Inserted(
                        RowV::RoomRow(VoiceRoomV { id: old(self)@.next_room_id, users: members@ }),
                    ),
                ),
                ..old(self)@
            }),
            final(self)@.wf(),
    {
        let id = self.next_room_id;
        let row = VoiceRoom { id, users: members };
        let copy = dup_room(&row);
        self.rooms.push(row);
        self.changes.push(Change::Inserted(Row::RoomRow(copy)));
        self.next_room_id = id + 1;
        proof {
            let m0 = old(self)@;
            let rv = VoiceRoomV { id: m0.next_room_id, users: copy@.users };
            assert(self@.rooms =~= m0.rooms.push(rv));
            assert(self@.changes =~= m0.changes.push(ChangeV::Inserted(RowV::RoomRow(rv))));
            assert(self@ =~= (DbModel {
                rooms: m0.rooms.push(rv),
                next_room_id: (m0.next_room_id + 1) as u32,
                changes: m0.changes.push(ChangeV::Inserted(RowV::RoomRow(rv))),
                ..m0
            }));
        }
        id
    }

    /// How many messages the store holds.
    pub fn messages_len(&self) -> (r: usize)
        ensures
            r == self@.messages.len(),
    {
        self.messages.len()
    }
}

} // verus!
