//! Row types of the table store, their mathematical views, and the
//! change records that every committed mutation queues for replication.
use vstd::prelude::*;

verus! {

use crate::text::dup_vals;

/// Opaque per-session token naming one live client connection,
/// distinct from an account id.
pub type Identity = u64;

/// A user-facing reason for which a command was rejected; the store
/// is left exactly as it was.
#[derive(Clone, Copy, Debug, PartialEq, Eq, Structural)]
pub enum ValidationError {
    AlreadyAuthenticated,
    NameTooShort,
    PasswordTooShort,
    NameTaken,
    NoSuchUser,
    BadPassword,
    NotAuthenticated,
    EmptyMessage,
    NotFound,
    PermissionDenied,
    AlreadyInProgress,
    NoActiveUpload,
    UploadAlreadyFinished,
    UploadNotFinished,
    NotInRoom,
    InvalidImage,
    DuplicateKey,
}

/// A command outcome other than success: either a validation failure,
/// which the caller can correct and retry, or a broken internal
/// invariant, which is fatal to the operation and never conflated
/// with validation.
#[derive(Clone, Copy, Debug, PartialEq, Eq, Structural)]
pub enum CommandError {
    Rejected(ValidationError),
    Internal,
}

/// An account row: stable id, unique display name, administrator
/// flag, optional avatar bytes, and the connections currently online.
pub struct User {
    pub id: u32,
    pub is_admin: bool,
    pub avatar: Option<Vec<u8>>,
    pub name: String,
    pub online: Vec<Identity>,
}

#[verifier::ext_equal]
pub struct UserV {
    pub id: u32,
    pub is_admin: bool,
    pub avatar: Option<Seq<u8>>,
    pub name: Seq<char>,
    pub online: Seq<Identity>,
}

impl View for User {
    type V = UserV;

    open spec fn view(&self) -> UserV {
        UserV {
            id: self.id,
            is_admin: self.is_admin,
            avatar: match self.avatar {
                Some(a) => Some(a@),
                None => None,
            },
            name: self.name@,
            online: self.online@,
        }
    }
}

/// The private credential row of one account: password material and
/// the connections currently bound to the account. Never replicated.
pub struct UserCredentials {
    pub user_id: u32,
    pub password: String,
    pub connections: Vec<Identity>,
}

#[verifier::ext_equal]
pub struct UserCredentialsV {
    pub user_id: u32,
    pub password: Seq<char>,
    pub connections: Seq<Identity>,
}

impl View for UserCredentials {
    type V = UserCredentialsV;

    open spec fn view(&self) -> UserCredentialsV {
        UserCredentialsV {
            user_id: self.user_id,
            password: self.password@,
            connections: self.connections@,
        }
    }
}

/// A reference from a message to a finalized attachment.
pub struct FileRef {
    pub id: u32,
    pub name: String,
    pub size: u64,
}

#[verifier::ext_equal]
pub struct FileRefV {
    pub id: u32,
    pub name: Seq<char>,
    pub size: u64,
}

impl View for FileRef {
    type V = FileRefV;

    open spec fn view(&self) -> FileRefV {
        FileRefV { id: self.id, name: self.name@, size: self.size }
    }
}

/// A chat message. The text is stored with surrounding whitespace
/// already removed and may be empty only when a file is attached.
pub struct Message {
    pub id: u32,
    pub sender: u32,
    pub reply: Option<u32>,
    pub edited: Option<u64>,
    pub sent: u64,
    pub text: Vec<char>,
    pub file: Option<FileRef>,
}

#[verifier::ext_equal]
pub struct MessageV {
    pub id: u32,
    pub sender: u32,
    pub reply: Option<u32>,
    pub edited: Option<u64>,
    pub sent: u64,
    pub text: Seq<char>,
    pub file: Option<FileRefV>,
}

impl View for Message {
    type V = MessageV;

    open spec fn view(&self) -> MessageV {
        MessageV {
            id: self.id,
            sender: self.sender,
            reply: self.reply,
            edited: self.edited,
            sent: self.sent,
            text: self.text@,
            file: match self.file {
                Some(f) => Some(f@),
                None => None,
            },
        }
    }
}

/// An in-flight upload, keyed by the connection that requested it:
/// set `finished` once the staging buffer has reached its target size.
#[derive(Clone, Copy)]
pub struct FileRequest {
    pub sender: Identity,
    pub finished: bool,
    pub file: u32,
}

impl View for FileRequest {
    type V = FileRequest;

    open spec fn view(&self) -> FileRequest {
        *self
    }
}

/// The staging buffer of an in-flight upload: the declared name, the
/// bytes accumulated so far, and the declared final size.
pub struct TempFile {
    pub id: u32,
    pub name: String,
    pub data: Vec<u8>,
    pub size: u64,
}

#[verifier::ext_equal]
pub struct TempFileV {
    pub id: u32,
    pub name: Seq<char>,
    pub data: Seq<u8>,
    pub size: u64,
}

impl View for TempFile {
    type V = TempFileV;

    open spec fn view(&self) -> TempFileV {
        TempFileV { id: self.id, name: self.name@, data: self.data@, size: self.size }
    }
}

/// A finalized, immutable attachment.
pub struct File {
    pub id: u32,
    pub name: String,
    pub data: Vec<u8>,
}

#[verifier::ext_equal]
pub struct FileV {
    pub id: u32,
    pub name: Seq<char>,
    pub data: Seq<u8>,
}

impl View for File {
    type V = FileV;

    open spec fn view(&self) -> FileV {
        FileV { id: self.id, name: self.name@, data: self.data@ }
    }
}

/// A voice room: the accounts that are members.
pub struct VoiceRoom {
    pub id: u32,
    pub users: Vec<u32>,
}

#[verifier::ext_equal]
pub struct VoiceRoomV {
    pub id: u32,
    pub users: Seq<u32>,
}

impl View for VoiceRoom {
    type V = VoiceRoomV;

    open spec fn view(&self) -> VoiceRoomV {
        VoiceRoomV { id: self.id, users: self.users@ }
    }
}

/// An ephemeral voice packet: room, sending account, and the sample
/// buffer, carried as the raw bit pattern of each sample.
pub struct VoicePacket {
    pub room_id: u32,
    pub sender: u32,
    pub data: Vec<u32>,
}

#[verifier::ext_equal]
pub struct VoicePacketV {
    pub room_id: u32,
    pub sender: u32,
    pub data: Seq<u32>,
}

impl View for VoicePacket {
    type V = VoicePacketV;

    open spec fn view(&self) -> VoicePacketV {
        VoicePacketV { room_id: self.room_id, sender: self.sender, data: self.data@ }
    }
}

/// One row of any table, as carried by a change record.
pub enum Row {
    UserRow(User),
    CredentialRow(UserCredentials),
    MessageRow(Message),
    RequestRow(FileRequest),
    StagingRow(TempFile),
    FileRow(File),
    RoomRow(VoiceRoom),
    PacketRow(VoicePacket),
}

#[verifier::ext_equal]
pub enum RowV {
    UserRow(UserV),
    CredentialRow(UserCredentialsV),
    MessageRow(MessageV),
    RequestRow(FileRequest),
    StagingRow(TempFileV),
    FileRow(FileV),
    RoomRow(VoiceRoomV),
    PacketRow(VoicePacketV),
}

impl View for Row {
    type V = RowV;

    open spec fn view(&self) -> RowV {
        match self {
            Row::UserRow(r) => RowV::UserRow(r@),
            Row::CredentialRow(r) => RowV::CredentialRow(r@),
            Row::MessageRow(r) => RowV::MessageRow(r@),
            Row::RequestRow(r) => RowV::RequestRow(r@),
            Row::StagingRow(r) => RowV::StagingRow(r@),
            Row::FileRow(r) => RowV::FileRow(r@),
            Row::RoomRow(r) => RowV::RoomRow(r@),
            Row::PacketRow(r) => RowV::PacketRow(r@),
        }
    }
}

/// A change record queued by a successful mutation: the affected row
/// before and after, emitted to the replication layer on commit.
pub enum Change {
    Inserted(Row),
    Updated(Row, Row),
    Deleted(Row),
}

#[verifier::ext_equal]
pub enum ChangeV {
    Inserted(RowV),
    Updated(RowV, RowV),
    Deleted(RowV),
}

impl View for Change {
    type V = ChangeV;

    open spec fn view(&self) -> ChangeV {
        match self {
            Change::Inserted(r) => ChangeV::Inserted(r@),
            Change::Updated(a, b) => ChangeV::Updated(a@, b@),
            Change::Deleted(r) => ChangeV::Deleted(r@),
        }
    }
}

/// Copies a user row.
pub fn dup_user(u: &User) -> (r: User)
    ensures
        r@ == u@,
{
    User {
        id: u.id,
        is_admin: u.is_admin,
        avatar: match &u.avatar {
            Some(a) => Some(dup_vals(a)),
            None => None,
        },
        name: u.name.clone(),
        online: dup_vals(&u.online),
    }
}

/// Copies a credential row.
pub fn dup_credentials(c: &UserCredentials) -> (r: UserCredentials)
    ensures
        r@ == c@,
{
    UserCredentials {
        user_id: c.user_id,
        password: c.password.clone(),
        connections: dup_vals(&c.connections),
    }
}

/// Copies a file reference.
pub fn dup_file_ref(f: &FileRef) -> (r: FileRef)
    ensures
        r@ == f@,
{
    FileRef { id: f.id, name: f.name.clone(), size: f.size }
}

/// Copies a message row.
pub fn dup_message(m: &Message) -> (r: Message)
    ensures
        r@ == m@,
{
    Message {
        id: m.id,
        sender: m.sender,
        reply: m.reply,
        edited: m.edited,
        sent: m.sent,
        text: dup_vals(&m.text),
        file: match &m.file {
            Some(f) => Some(dup_file_ref(f)),
            None => None,
        },
    }
}

/// Copies a staging row.
pub fn dup_temp_file(t: &TempFile) -> (r: TempFile)
    ensures
        r@ == t@,
{
    TempFile { id: t.id, name: t.name.clone(), data: dup_vals(&t.data), size: t.size }
}

/// Copies a file row.
pub fn dup_file(f: &File) -> (r: File)
    ensures
        r@ == f@,
{
    File { id: f.id, name: f.name.clone(), data: dup_vals(&f.data) }
}

/// Copies a room row.
pub fn dup_room(r0: &VoiceRoom) -> (r: VoiceRoom)
    ensures
        r@ == r0@,
{
    VoiceRoom { id: r0.id, users: dup_vals(&r0.users) }
}

/// Copies a voice packet row.
pub fn dup_packet(p: &VoicePacket) -> (r: VoicePacket)
    ensures
        r@ == p@,
{
    VoicePacket { room_id: p.room_id, sender: p.sender, data: dup_vals(&p.data) }
}

/// Copies a row.
pub fn dup_row(r0: &Row) -> (r: Row)
    ensures
        r@ == r0@,
{
    match r0 {
        Row::UserRow(u) => Row::UserRow(dup_user(u)),
        Row::CredentialRow(c) => Row::CredentialRow(dup_credentials(c)),
        Row::MessageRow(m) => Row::MessageRow(dup_message(m)),
        Row::RequestRow(q) => Row::RequestRow(*q),
        Row::StagingRow(t) => Row::StagingRow(dup_temp_file(t)),
        Row::FileRow(f) => Row::FileRow(dup_file(f)),
        Row::RoomRow(v) => Row::RoomRow(dup_room(v)),
        Row::PacketRow(p) => Row::PacketRow(dup_packet(p)),
    }
}

/// Copies a change record.
pub fn dup_change(c0: &Change) -> (r: Change)
    ensures
        r@ == c0@,
{
    match c0 {
        Change::Inserted(x) => Change::Inserted(dup_row(x)),
        Change::Updated(a, b) => Change::Updated(dup_row(a), dup_row(b)),
        Change::Deleted(x) => Change::Deleted(dup_row(x)),
    }
}

} // verus!
