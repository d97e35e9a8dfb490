//! The command engine: the fixed catalog of named operations. Every
//! command runs as one transaction against the table store — its
//! whole effect is a single transition on the store model — and a
//! rejected command leaves the store exactly as it was.
use vstd::prelude::*;

verus! {

use crate::auth::{login, login_tr, logout, logout_tr, signup, signup_tr};
use crate::media::{
    decoded_dims, send_voice_packet, send_voice_packet_tr, set_avatar, set_avatar_tr,
};
use crate::messages::{
    edit_message, edit_message_tr, remove_message, remove_message_tr, send_message,
    send_message_tr, upload_file, upload_file_tr,
};
use crate::rows::{CommandError, Identity};
use crate::store::{ChatDb, DbModel};
use crate::transfer::{request_stream, request_stream_tr, send_packet, send_packet_tr};

/// One invocation of the command surface: the command name and its
/// typed arguments, as carried by a client connection's channel.
pub enum Command {
    Signup { name: String, password: String },
    Login { name: String, password: String },
    Logout,
    SendMessage { text: String, reply: Option<u32> },
    EditMessage { id: u32, text: String },
    RemoveMessage { id: u32 },
    RequestStream { name: String, size: u64 },
    SendPacket { pocket: Vec<u8> },
    SendVoicePacket { samples: Vec<u32> },
    SetAvatar { data: Vec<u8> },
    UploadFile { name: String, data: Vec<u8> },
}

#[verifier::ext_equal]
pub enum CommandV {
    Signup { name: Seq<char>, password: Seq<char> },
    Login { name: Seq<char>, password: Seq<char> },
    Logout,
    SendMessage { text: Seq<char>, reply: Option<u32> },
    EditMessage { id: u32, text: Seq<char> },
    RemoveMessage { id: u32 },
    RequestStream { name: Seq<char>, size: u64 },
    SendPacket { pocket: Seq<u8> },
    SendVoicePacket { samples: Seq<u32> },
    SetAvatar { data: Seq<u8> },
    UploadFile { name: Seq<char>, data: Seq<u8> },
}

impl View for Command {
    type V = CommandV;

    open spec fn view(&self) -> CommandV {
        match self {
            Command::Signup { name, password } => CommandV::Signup {
                name: name@,
                password: password@,
            },
            Command::Login { name, password } => CommandV::Login {
                name: name@,
                password: password@,
            },
            Command::Logout => CommandV::Logout,
            Command::SendMessage { text, reply } => CommandV::SendMessage {
                text: text@,
                reply: *reply,
            },
            Command::EditMessage { id, text } => CommandV::EditMessage { id: *id, text: text@ },
            Command::RemoveMessage { id } => CommandV::RemoveMessage { id: *id },
            Command::RequestStream { name, size } => CommandV::RequestStream {
                name: name@,
                size: *size,
            },
            Command::SendPacket { pocket } => CommandV::SendPacket { pocket: pocket@ },
            Command::SendVoicePacket { samples } => CommandV::SendVoicePacket {
                samples: samples@,
            },
            Command::SetAvatar { data } => CommandV::SetAvatar { data: data@ },
            Command::UploadFile { name, data } => CommandV::UploadFile {
                name: name@,
                data: data@,
            },
        }
    }
}

/// The exact effect of one command on the store: the transition of
/// the named operation, applied to the invoking connection's
/// identity, the commit timestamp, and the typed arguments.
pub open spec fn command_tr(m: DbModel, s: Identity, ts: u64, c: CommandV) -> (
    DbModel,
    Result<(), CommandError>,
) {
    match c {
        CommandV::Signup { name, password } => signup_tr(m, s, name, password),
        CommandV::Login { name, password } => login_tr(m, s, name, password),
        CommandV::Logout => logout_tr(m, s),
        CommandV::SendMessage { text, reply } => send_message_tr(m, s, ts, text, reply),
        CommandV::EditMessage { id, text } => edit_message_tr(m, s, ts, id, text),
        CommandV::RemoveMessage { id } => remove_message_tr(m, s, id),
        CommandV::RequestStream { name, size } => request_stream_tr(m, s, name, size),
        CommandV::SendPacket { pocket } => send_packet_tr(m, s, pocket),
        CommandV::SendVoicePacket { samples } => send_voice_packet_tr(m, s, samples),
        CommandV::SetAvatar { data } => set_avatar_tr(m, s, data, decoded_dims(data)),
        CommandV::UploadFile { name, data } => upload_file_tr(m, s, name, data),
    }
}

/// What the machine asks of a command: the auto-increment counter a
/// creating command would draw from must not be exhausted.
pub open spec fn command_fits(m: DbModel, c: CommandV) -> bool {
    match c {
        CommandV::Signup { .. } => m.next_user_id < u32::MAX,
        CommandV::SendMessage { .. } => m.next_message_id < u32::MAX,
        CommandV::RequestStream { .. } => m.next_temp_id < u32::MAX,
        _ => true,
    }
}

/// Law: commands are all-or-nothing. A command that fails — for any
/// reason — leaves the store model exactly as it was; no partial
/// mutation is ever visible.
pub proof fn lemma_rejected_command_changes_nothing(
    m: DbModel,
    s: Identity,
    ts: u64,
    c: CommandV,
)
    ensures
        command_tr(m, s, ts, c).1 is Err ==> command_tr(m, s, ts, c).0 == m,
{
}

/// Validates and executes one command of the catalog, atomically:
/// on success the store moves to the command's transition result and
/// the queued change records grow by the command's changes; on
/// rejection nothing moves.
pub fn apply_command(db: &mut ChatDb, sender: Identity, timestamp: u64, cmd: Command) -> (r:
    Result<(), CommandError>)
    requires
        old(db)@.wf(),
        command_fits(old(db)@, cmd@),
    ensures
        final(db)@ == command_tr(old(db)@, sender, timestamp, cmd@).0,
        r == command_tr(old(db)@, sender, timestamp, cmd@).1,
        final(db)@.wf(),
{
    match cmd {
        Command::Signup { name, password } => signup(db, sender, name, password),
        Command::Login { name, password } => login(db, sender, name, password),
        Command::Logout => logout(db, sender),
        Command::SendMessage { text, reply } => send_message(db, sender, timestamp, text, reply),
        Command::EditMessage { id, text } => edit_message(db, sender, timestamp, id, text),
        Command::RemoveMessage { id } => remove_message(db, sender, id),
        Command::RequestStream { name, size } => request_stream(db, sender, name, size),
        Command::SendPacket { pocket } => send_packet(db, sender, pocket),
        Command::SendVoicePacket { samples } => send_voice_packet(db, sender, samples),
        Command::SetAvatar { data } => set_avatar(db, sender, data),
        Command::UploadFile { name, data } => upload_file(db, sender, name, data),
    }
}

} // verus!
