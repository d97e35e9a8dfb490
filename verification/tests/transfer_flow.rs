//! The chunked transfer state machine, end to end: declare, stream,
//! finish, fold into a message, and abandon on disconnect.
use chat_core::auth::signup;
use chat_core::messages::{remove_message, send_message};
use chat_core::presence::client_disconnected;
use chat_core::rows::{CommandError, ValidationError};
use chat_core::store::ChatDb;
use chat_core::transfer::{request_stream, send_packet};

fn rejected(e: ValidationError) -> Result<(), CommandError> {
    Err(CommandError::Rejected(e))
}

#[test]
fn chunks_accumulate_and_fold_into_one_file() {
    let mut db = ChatDb::new();
    assert_eq!(signup(&mut db, 1, "alice".to_string(), "secret".to_string()), Ok(()));
    assert_eq!(request_stream(&mut db, 1, "notes.txt".to_string(), 5), Ok(()));
    assert!(!db.requests[0].finished);
    assert_eq!(send_packet(&mut db, 1, vec![10, 20]), Ok(()));
    assert!(!db.requests[0].finished);
    assert_eq!(send_packet(&mut db, 1, vec![30]), Ok(()));
    assert_eq!(send_packet(&mut db, 1, vec![40, 50]), Ok(()));
    // The accumulated length reached the declared size: finished.
    assert!(db.requests[0].finished);
    assert_eq!(db.temp_files[0].data, vec![10, 20, 30, 40, 50]);
    // A further chunk is refused.
    assert_eq!(send_packet(&mut db, 1, vec![60]), rejected(ValidationError::UploadAlreadyFinished));
    // Folding: exactly one file, bytes in submission order.
    assert_eq!(send_message(&mut db, 1, 99, "".to_string(), None), Ok(()));
    assert_eq!(db.files.len(), 1);
    assert_eq!(db.files[0].data, vec![10, 20, 30, 40, 50]);
    assert_eq!(db.files[0].name, "notes.txt");
    assert!(db.requests.is_empty());
    assert!(db.temp_files.is_empty());
    assert_eq!(db.messages.len(), 1);
    let fref = db.messages[0].file.as_ref().unwrap();
    assert_eq!(fref.size, 5);
    assert_eq!(fref.id, db.files[0].id);
    assert_eq!(fref.name, "notes.txt");
}

#[test]
fn transfer_error_paths() {
    let mut db = ChatDb::new();
    assert_eq!(signup(&mut db, 1, "alice".to_string(), "secret".to_string()), Ok(()));
    assert_eq!(send_packet(&mut db, 9, vec![1]), rejected(ValidationError::NotAuthenticated));
    assert_eq!(send_packet(&mut db, 1, vec![1]), rejected(ValidationError::NoActiveUpload));
    assert_eq!(request_stream(&mut db, 1, "a".to_string(), 2), Ok(()));
    assert_eq!(
        request_stream(&mut db, 1, "b".to_string(), 3),
        rejected(ValidationError::AlreadyInProgress)
    );
    // A message cannot be sent while the upload is not finished.
    assert_eq!(
        send_message(&mut db, 1, 1, "text".to_string(), None),
        rejected(ValidationError::UploadNotFinished)
    );
}

#[test]
fn disconnect_abandons_upload() {
    let mut db = ChatDb::new();
    assert_eq!(signup(&mut db, 1, "alice".to_string(), "secret".to_string()), Ok(()));
    assert_eq!(request_stream(&mut db, 1, "big.bin".to_string(), 100), Ok(()));
    assert_eq!(send_packet(&mut db, 1, vec![1, 2, 3]), Ok(()));
    client_disconnected(&mut db, 1);
    // No residual request or staging row remains.
    assert!(db.requests.is_empty());
    assert!(db.temp_files.is_empty());
    // A new connection bound to the same account starts clean.
    assert_eq!(chat_core::auth::login(&mut db, 2, "alice".to_string(), "secret".to_string()), Ok(()));
    assert_eq!(send_packet(&mut db, 2, vec![9]), rejected(ValidationError::NoActiveUpload));
    assert_eq!(request_stream(&mut db, 2, "fresh.bin".to_string(), 1), Ok(()));
}

#[test]
fn remove_message_deletes_attached_file() {
    let mut db = ChatDb::new();
    assert_eq!(signup(&mut db, 1, "alice".to_string(), "secret".to_string()), Ok(()));
    assert_eq!(request_stream(&mut db, 1, "pic".to_string(), 2), Ok(()));
    assert_eq!(send_packet(&mut db, 1, vec![7, 8]), Ok(()));
    assert_eq!(send_message(&mut db, 1, 5, "with file".to_string(), None), Ok(()));
    assert_eq!(db.files.len(), 1);
    let mid = db.messages[0].id;
    let fid = db.files[0].id;
    assert_eq!(remove_message(&mut db, 1, mid), Ok(()));
    assert!(db.messages.is_empty());
    assert!(db.files.iter().all(|f| f.id != fid));
    // Subsequent lookups of the message fail NotFound.
    assert_eq!(remove_message(&mut db, 1, mid), rejected(ValidationError::NotFound));
    assert_eq!(
        chat_core::messages::edit_message(&mut db, 1, 6, mid, "x".to_string()),
        rejected(ValidationError::NotFound)
    );
}

#[test]
fn split_chunks_round_trip() {
    let original: Vec<u8> = (0u8..23).collect();
    let mut db = ChatDb::new();
    assert_eq!(signup(&mut db, 1, "alice".to_string(), "secret".to_string()), Ok(()));
    assert_eq!(
        request_stream(&mut db, 1, "blob".to_string(), original.len() as u64),
        Ok(())
    );
    let mut pending = original.clone();
    let first = chat_core::transfer::next_chunk(&mut pending, 10);
    assert_eq!(first, (0u8..10).collect::<Vec<u8>>());
    assert_eq!(pending, (10u8..23).collect::<Vec<u8>>());
    assert_eq!(send_packet(&mut db, 1, first), Ok(()));
    while !pending.is_empty() {
        let chunk = chat_core::transfer::next_chunk(&mut pending, 10);
        assert_eq!(send_packet(&mut db, 1, chunk), Ok(()));
    }
    assert!(db.requests[0].finished);
    assert_eq!(send_message(&mut db, 1, 3, "".to_string(), None), Ok(()));
    assert_eq!(db.files[0].data, original);
    // Asking for more than remains hands back everything at once.
    let mut small = vec![1u8, 2];
    let all = chat_core::transfer::next_chunk(&mut small, 100);
    assert_eq!(all, vec![1, 2]);
    assert!(small.is_empty());
}

#[test]
fn zero_size_upload_finishes_on_empty_chunk() {
    let mut db = ChatDb::new();
    assert_eq!(signup(&mut db, 1, "alice".to_string(), "secret".to_string()), Ok(()));
    assert_eq!(request_stream(&mut db, 1, "empty".to_string(), 0), Ok(()));
    assert!(!db.requests[0].finished);
    assert_eq!(send_packet(&mut db, 1, vec![]), Ok(()));
    assert!(db.requests[0].finished);
    assert_eq!(send_message(&mut db, 1, 1, "".to_string(), None), Ok(()));
    assert_eq!(db.files.len(), 1);
    assert!(db.files[0].data.is_empty());
}
