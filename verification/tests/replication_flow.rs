//! The replication layer: change records drained at commit, fanned
//! out per subscription, filtered per connection.
use chat_core::auth::signup;
use chat_core::media::send_voice_packet;
use chat_core::messages::send_message;
use chat_core::replication::{
    cancel_file_query, register_file_query, replicate, Query, ReplEvent, Subscription, TableId,
};
use chat_core::rows::{Change, Row};
use chat_core::store::ChatDb;
use chat_core::transfer::request_stream;

fn all_tables(conn: u64) -> Subscription {
    Subscription {
        conn,
        queries: vec![
            Query::AllOf(TableId::Users),
            Query::AllOf(TableId::Credentials),
            Query::AllOf(TableId::Messages),
            Query::AllOf(TableId::Requests),
            Query::AllOf(TableId::Stagings),
            Query::AllOf(TableId::Files),
            Query::AllOf(TableId::Rooms),
            Query::AllOf(TableId::Packets),
        ],
    }
}

fn is_credential(e: &ReplEvent) -> bool {
    matches!(
        &e.change,
        Change::Inserted(Row::CredentialRow(_))
            | Change::Updated(Row::CredentialRow(_), _)
            | Change::Deleted(Row::CredentialRow(_))
    )
}

fn is_staging(e: &ReplEvent) -> bool {
    matches!(
        &e.change,
        Change::Inserted(Row::StagingRow(_))
            | Change::Updated(Row::StagingRow(_), _)
            | Change::Deleted(Row::StagingRow(_))
    )
}

#[test]
fn private_tables_are_never_replicated() {
    let mut db = ChatDb::new();
    assert_eq!(signup(&mut db, 1, "alice".to_string(), "secret".to_string()), Ok(()));
    assert_eq!(request_stream(&mut db, 1, "f".to_string(), 4), Ok(()));
    let changes = db.take_changes();
    // Signup queued a credential insert and the upload a staging
    // insert; neither may reach any connection, even one that asks
    // for those tables outright.
    assert!(changes.iter().any(|c| matches!(c, Change::Inserted(Row::CredentialRow(_)))));
    assert!(changes.iter().any(|c| matches!(c, Change::Inserted(Row::StagingRow(_)))));
    let subs = vec![all_tables(1), all_tables(2)];
    let events = replicate(&db, &changes, &subs);
    assert!(!events.iter().any(is_credential));
    assert!(!events.iter().any(is_staging));
    // The user insert did go out, to both connections.
    let user_inserts: Vec<&ReplEvent> = events
        .iter()
        .filter(|e| matches!(&e.change, Change::Inserted(Row::UserRow(_))))
        .collect();
    assert_eq!(user_inserts.len(), 2);
}

#[test]
fn request_rows_go_only_to_their_owner() {
    let mut db = ChatDb::new();
    assert_eq!(signup(&mut db, 1, "alice".to_string(), "secret".to_string()), Ok(()));
    assert_eq!(request_stream(&mut db, 1, "f".to_string(), 4), Ok(()));
    let changes = db.take_changes();
    let subs = vec![all_tables(1), all_tables(2)];
    let events = replicate(&db, &changes, &subs);
    for e in events.iter() {
        if matches!(&e.change, Change::Inserted(Row::RequestRow(_))) {
            assert_eq!(e.conn, 1);
        }
    }
    assert!(events
        .iter()
        .any(|e| e.conn == 1 && matches!(&e.change, Change::Inserted(Row::RequestRow(_)))));
}

#[test]
fn voice_packets_stay_in_their_room() {
    let mut db = ChatDb::new();
    assert_eq!(signup(&mut db, 1, "alice".to_string(), "secret".to_string()), Ok(()));
    assert_eq!(signup(&mut db, 2, "bobby".to_string(), "secret".to_string()), Ok(()));
    assert_eq!(signup(&mut db, 3, "carol".to_string(), "secret".to_string()), Ok(()));
    let alice = db.users[0].id;
    let bobby = db.users[1].id;
    let carol = db.users[2].id;
    // Alice and Bobby share a room; Carol sits in another.
    db.insert_room(vec![alice, bobby]);
    db.insert_room(vec![carol]);
    db.take_changes();
    assert_eq!(send_voice_packet(&mut db, 1, vec![0xAAAA, 0xBBBB]), Ok(()));
    let changes = db.take_changes();
    let subs = vec![all_tables(1), all_tables(2), all_tables(3)];
    let events = replicate(&db, &changes, &subs);
    let packet_conns: Vec<u64> = events
        .iter()
        .filter(|e| matches!(&e.change, Change::Inserted(Row::PacketRow(_))))
        .map(|e| e.conn)
        .collect();
    // A connection subscribed to voice packets but in another room
    // never receives the packet.
    assert_eq!(packet_conns, vec![1, 2]);
}

#[test]
fn voice_packet_needs_a_room() {
    let mut db = ChatDb::new();
    assert_eq!(signup(&mut db, 1, "alice".to_string(), "secret".to_string()), Ok(()));
    assert_eq!(
        send_voice_packet(&mut db, 1, vec![1]),
        Err(chat_core::rows::CommandError::Rejected(chat_core::rows::ValidationError::NotInRoom))
    );
    assert_eq!(
        send_voice_packet(&mut db, 9, vec![1]),
        Err(chat_core::rows::CommandError::Rejected(
            chat_core::rows::ValidationError::NotAuthenticated
        ))
    );
}

#[test]
fn events_arrive_in_commit_order() {
    let mut db = ChatDb::new();
    assert_eq!(signup(&mut db, 1, "alice".to_string(), "secret".to_string()), Ok(()));
    db.take_changes();
    assert_eq!(send_message(&mut db, 1, 10, "one".to_string(), None), Ok(()));
    assert_eq!(send_message(&mut db, 1, 20, "two".to_string(), None), Ok(()));
    let changes = db.take_changes();
    let subs = vec![all_tables(4)];
    let events = replicate(&db, &changes, &subs);
    let texts: Vec<String> = events
        .iter()
        .filter_map(|e| match &e.change {
            Change::Inserted(Row::MessageRow(m)) => Some(m.text.iter().collect()),
            _ => None,
        })
        .collect();
    assert_eq!(texts, vec!["one".to_string(), "two".to_string()]);
}

#[test]
fn point_query_fetches_one_file() {
    let mut db = ChatDb::new();
    assert_eq!(signup(&mut db, 1, "alice".to_string(), "secret".to_string()), Ok(()));
    assert_eq!(chat_core::messages::upload_file(&mut db, 1, "a".to_string(), vec![1]), Ok(()));
    let changes = db.take_changes();
    let mut sub = Subscription { conn: 8, queries: Vec::new() };
    // Registering twice mirrors a download already in progress.
    assert!(register_file_query(&mut sub, 0));
    assert!(!register_file_query(&mut sub, 0));
    let subs = vec![sub];
    let events = replicate(&db, &changes, &subs);
    assert_eq!(events.len(), 1);
    assert!(matches!(&events[0].change, Change::Inserted(Row::FileRow(f)) if f.id == 0));
    // After cancellation nothing matches any more.
    let mut sub2 = subs.into_iter().next().unwrap();
    cancel_file_query(&mut sub2, 0);
    let events2 = replicate(&db, &changes, &vec![sub2]);
    assert!(events2.is_empty());
}
