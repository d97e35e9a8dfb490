//! Avatar decoding through the real image codec, and client-side
//! message paging.
use chat_core::auth::signup;
use chat_core::client::{get_messages, sorted_messages};
use chat_core::media::set_avatar;
use chat_core::messages::send_message;
use chat_core::rows::{CommandError, ValidationError};
use chat_core::store::ChatDb;
use image::{ImageFormat, RgbaImage};
use std::io::Cursor;

fn png_bytes(width: u32, height: u32) -> Vec<u8> {
    let img = RgbaImage::new(width, height);
    let mut out = Cursor::new(Vec::new());
    img.write_to(&mut out, ImageFormat::Png).unwrap();
    out.into_inner()
}

fn rejected(e: ValidationError) -> Result<(), CommandError> {
    Err(CommandError::Rejected(e))
}

#[test]
fn square_image_becomes_avatar() {
    let mut db = ChatDb::new();
    assert_eq!(signup(&mut db, 1, "alice".to_string(), "secret".to_string()), Ok(()));
    let bytes = png_bytes(4, 4);
    assert_eq!(set_avatar(&mut db, 1, bytes.clone()), Ok(()));
    assert_eq!(db.users[0].avatar.as_ref().unwrap(), &bytes);
}

#[test]
fn non_square_image_is_rejected() {
    let mut db = ChatDb::new();
    assert_eq!(signup(&mut db, 1, "alice".to_string(), "secret".to_string()), Ok(()));
    let bytes = png_bytes(4, 2);
    assert_eq!(set_avatar(&mut db, 1, bytes), rejected(ValidationError::InvalidImage));
    assert!(db.users[0].avatar.is_none());
}

#[test]
fn undecodable_bytes_are_rejected() {
    let mut db = ChatDb::new();
    assert_eq!(signup(&mut db, 1, "alice".to_string(), "secret".to_string()), Ok(()));
    assert_eq!(
        set_avatar(&mut db, 1, vec![1, 2, 3, 4, 5]),
        rejected(ValidationError::InvalidImage)
    );
    assert_eq!(
        set_avatar(&mut db, 9, png_bytes(2, 2)),
        rejected(ValidationError::NotAuthenticated)
    );
}

#[test]
fn messages_page_in_sent_order() {
    let mut db = ChatDb::new();
    assert_eq!(signup(&mut db, 1, "alice".to_string(), "secret".to_string()), Ok(()));
    assert_eq!(send_message(&mut db, 1, 300, "late".to_string(), None), Ok(()));
    assert_eq!(send_message(&mut db, 1, 100, "early".to_string(), None), Ok(()));
    assert_eq!(send_message(&mut db, 1, 200, "middle".to_string(), None), Ok(()));
    assert_eq!(db.messages_len(), 3);
    let sorted = sorted_messages(&db);
    let texts: Vec<String> = sorted.iter().map(|m| m.text.iter().collect()).collect();
    assert_eq!(texts, vec!["early".to_string(), "middle".to_string(), "late".to_string()]);
    let page = get_messages(&db, 1, 3);
    let page_texts: Vec<String> = page.iter().map(|m| m.text.iter().collect()).collect();
    assert_eq!(page_texts, vec!["middle".to_string(), "late".to_string()]);
    // Bounds are clamped.
    let wide = get_messages(&db, 0, 50);
    assert_eq!(wide.len(), 3);
    let empty = get_messages(&db, 7, 2);
    assert!(empty.is_empty());
}

#[test]
fn equal_sent_times_keep_arrival_order() {
    let mut db = ChatDb::new();
    assert_eq!(signup(&mut db, 1, "alice".to_string(), "secret".to_string()), Ok(()));
    assert_eq!(send_message(&mut db, 1, 100, "first".to_string(), None), Ok(()));
    assert_eq!(send_message(&mut db, 1, 100, "second".to_string(), None), Ok(()));
    assert_eq!(send_message(&mut db, 1, 50, "oldest".to_string(), None), Ok(()));
    let sorted = sorted_messages(&db);
    let texts: Vec<String> = sorted.iter().map(|m| m.text.iter().collect()).collect();
    assert_eq!(
        texts,
        vec!["oldest".to_string(), "first".to_string(), "second".to_string()]
    );
}
