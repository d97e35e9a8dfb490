//! Account and message commands driven end to end against a fresh
//! store.
use chat_core::auth::{login, logout, signup};
use chat_core::engine::{apply_command, Command};
use chat_core::messages::{edit_message, remove_message, send_message, upload_file};
use chat_core::presence::{client_connected, client_disconnected, update_online};
use chat_core::rows::{CommandError, ValidationError};
use chat_core::store::ChatDb;

fn rejected(e: ValidationError) -> Result<(), CommandError> {
    Err(CommandError::Rejected(e))
}

#[test]
fn signup_then_login_brings_fresh_connection_online() {
    let mut db = ChatDb::new();
    assert_eq!(signup(&mut db, 1, "alice".to_string(), "secret".to_string()), Ok(()));
    assert_eq!(login(&mut db, 2, "alice".to_string(), "secret".to_string()), Ok(()));
    assert_eq!(db.users.len(), 1);
    assert_eq!(db.users[0].name, "alice");
    assert!(db.users[0].online.contains(&1));
    assert!(db.users[0].online.contains(&2));
    assert!(db.credentials[0].connections.contains(&2));
}

#[test]
fn signup_floors_and_duplicates() {
    let mut db = ChatDb::new();
    assert_eq!(
        signup(&mut db, 1, "al".to_string(), "secret".to_string()),
        rejected(ValidationError::NameTooShort)
    );
    assert_eq!(
        signup(&mut db, 1, "alice".to_string(), "pwd".to_string()),
        rejected(ValidationError::PasswordTooShort)
    );
    assert_eq!(signup(&mut db, 1, "alice".to_string(), "secret".to_string()), Ok(()));
    assert_eq!(
        signup(&mut db, 2, "alice".to_string(), "other-secret".to_string()),
        rejected(ValidationError::NameTaken)
    );
    assert_eq!(
        signup(&mut db, 1, "bob".to_string(), "secret".to_string()),
        rejected(ValidationError::AlreadyAuthenticated)
    );
}

#[test]
fn login_failures() {
    let mut db = ChatDb::new();
    assert_eq!(signup(&mut db, 1, "alice".to_string(), "secret".to_string()), Ok(()));
    assert_eq!(
        login(&mut db, 2, "bob".to_string(), "secret".to_string()),
        rejected(ValidationError::NoSuchUser)
    );
    assert_eq!(
        login(&mut db, 2, "alice".to_string(), "wrong".to_string()),
        rejected(ValidationError::BadPassword)
    );
    assert_eq!(
        login(&mut db, 1, "alice".to_string(), "secret".to_string()),
        rejected(ValidationError::AlreadyAuthenticated)
    );
}

#[test]
fn logout_twice_second_fails_without_reverting() {
    let mut db = ChatDb::new();
    assert_eq!(signup(&mut db, 7, "alice".to_string(), "secret".to_string()), Ok(()));
    assert_eq!(logout(&mut db, 7), Ok(()));
    assert!(!db.users[0].online.contains(&7));
    assert!(!db.credentials[0].connections.contains(&7));
    let users_before = db.users.len();
    assert_eq!(logout(&mut db, 7), rejected(ValidationError::NotAuthenticated));
    assert_eq!(db.users.len(), users_before);
    assert!(!db.users[0].online.contains(&7));
}

#[test]
fn empty_message_is_rejected() {
    let mut db = ChatDb::new();
    assert_eq!(signup(&mut db, 1, "alice".to_string(), "secret".to_string()), Ok(()));
    assert_eq!(
        send_message(&mut db, 1, 1000, "".to_string(), None),
        rejected(ValidationError::EmptyMessage)
    );
    // Whitespace-only text trims to nothing.
    assert_eq!(
        send_message(&mut db, 1, 1000, " \t \n ".to_string(), None),
        rejected(ValidationError::EmptyMessage)
    );
    assert_eq!(db.messages.len(), 0);
    assert_eq!(
        send_message(&mut db, 9, 1000, "hello".to_string(), None),
        rejected(ValidationError::NotAuthenticated)
    );
}

#[test]
fn send_message_trims_and_stores() {
    let mut db = ChatDb::new();
    assert_eq!(signup(&mut db, 1, "alice".to_string(), "secret".to_string()), Ok(()));
    assert_eq!(send_message(&mut db, 1, 1234, "  hi there \n".to_string(), None), Ok(()));
    assert_eq!(db.messages.len(), 1);
    let text: String = db.messages[0].text.iter().collect();
    assert_eq!(text, "hi there");
    assert_eq!(db.messages[0].sender, db.users[0].id);
    assert_eq!(db.messages[0].sent, 1234);
    assert_eq!(db.messages[0].edited, None);
    assert!(db.messages[0].file.is_none());
}

#[test]
fn edit_message_rules() {
    let mut db = ChatDb::new();
    assert_eq!(signup(&mut db, 1, "alice".to_string(), "secret".to_string()), Ok(()));
    assert_eq!(signup(&mut db, 2, "bobby".to_string(), "secret".to_string()), Ok(()));
    assert_eq!(send_message(&mut db, 1, 10, "first".to_string(), None), Ok(()));
    let id = db.messages[0].id;
    assert_eq!(
        edit_message(&mut db, 1, 20, id + 100, "x".to_string()),
        rejected(ValidationError::NotFound)
    );
    assert_eq!(
        edit_message(&mut db, 2, 20, id, "x".to_string()),
        rejected(ValidationError::PermissionDenied)
    );
    assert_eq!(
        edit_message(&mut db, 1, 20, id, "  ".to_string()),
        rejected(ValidationError::EmptyMessage)
    );
    // Same text: no edit timestamp.
    assert_eq!(edit_message(&mut db, 1, 20, id, "first".to_string()), Ok(()));
    assert_eq!(db.messages[0].edited, None);
    // New text: edited is set.
    assert_eq!(edit_message(&mut db, 1, 30, id, "second".to_string()), Ok(()));
    let text: String = db.messages[0].text.iter().collect();
    assert_eq!(text, "second");
    assert_eq!(db.messages[0].edited, Some(30));
}

#[test]
fn remove_message_permissions() {
    let mut db = ChatDb::new();
    assert_eq!(signup(&mut db, 1, "alice".to_string(), "secret".to_string()), Ok(()));
    assert_eq!(signup(&mut db, 2, "bobby".to_string(), "secret".to_string()), Ok(()));
    assert_eq!(send_message(&mut db, 1, 10, "keep me".to_string(), None), Ok(()));
    let id = db.messages[0].id;
    assert_eq!(remove_message(&mut db, 2, id), rejected(ValidationError::PermissionDenied));
    // An administrator may remove anyone's message.
    db.users[1].is_admin = true;
    assert_eq!(remove_message(&mut db, 2, id), Ok(()));
    assert_eq!(db.messages.len(), 0);
    assert_eq!(remove_message(&mut db, 2, id), rejected(ValidationError::NotFound));
}

#[test]
fn upload_file_duplicate_key() {
    let mut db = ChatDb::new();
    assert_eq!(
        upload_file(&mut db, 1, "a.bin".to_string(), vec![1, 2]),
        rejected(ValidationError::NotAuthenticated)
    );
    assert_eq!(signup(&mut db, 1, "alice".to_string(), "secret".to_string()), Ok(()));
    assert_eq!(upload_file(&mut db, 1, "a.bin".to_string(), vec![1, 2]), Ok(()));
    assert_eq!(db.files.len(), 1);
    assert_eq!(db.files[0].id, 0);
    assert_eq!(
        upload_file(&mut db, 1, "b.bin".to_string(), vec![3]),
        rejected(ValidationError::DuplicateKey)
    );
}

#[test]
fn engine_dispatches_the_catalog() {
    let mut db = ChatDb::new();
    assert_eq!(
        apply_command(
            &mut db,
            1,
            50,
            Command::Signup { name: "alice".to_string(), password: "secret".to_string() },
        ),
        Ok(())
    );
    assert_eq!(
        apply_command(
            &mut db,
            1,
            60,
            Command::SendMessage { text: "via the engine".to_string(), reply: None },
        ),
        Ok(())
    );
    assert_eq!(db.messages.len(), 1);
    assert_eq!(db.messages[0].sent, 60);
    // A rejected command leaves the store exactly as it was.
    let messages_before = db.messages.len();
    let users_before = db.users.len();
    assert_eq!(
        apply_command(&mut db, 2, 70, Command::Logout),
        rejected(ValidationError::NotAuthenticated)
    );
    assert_eq!(db.messages.len(), messages_before);
    assert_eq!(db.users.len(), users_before);
}

#[test]
fn presence_hooks_toggle_online() {
    let mut db = ChatDb::new();
    assert_eq!(signup(&mut db, 5, "alice".to_string(), "secret".to_string()), Ok(()));
    client_disconnected(&mut db, 5);
    assert!(!db.users[0].online.contains(&5));
    // The connection stays bound, so reconnecting resumes the session.
    assert!(db.credentials[0].connections.contains(&5));
    client_connected(&mut db, 5);
    assert!(db.users[0].online.contains(&5));
    // An unbound connection is a no-op.
    let users_before = db.users.len();
    update_online(&mut db, 99, true);
    assert_eq!(db.users.len(), users_before);
    assert!(!db.users[0].online.contains(&99));
}
