//! Ids, schemas, builders and the place that holds the index.

use std::path::PathBuf;

use bookmark_index::bookmark::{BookmarkPointerInfo, IndexedBookmarkContent};
use bookmark_index::builder::{
    open_directory_step, BookmarkIndexBuilder, DirectoryAction, DirectoryEvent, DirectoryState,
    MemoryBookmarkIndexBuilder, PhysicalBookmarkIndexBuilder,
};
use bookmark_index::error::{IndexError, OpenDirectoryError};
use bookmark_index::guard::{BookmarkIndexGuard, BookmarkIndexStoreKind};
use bookmark_index::ids::{EventId, MilliSecondsSinceUnixEpoch, RoomId, UserId, MAX_MILLIS};
use bookmark_index::operation::BookmarkIndexOperation;
use bookmark_index::schema::BookmarkSchema;

fn event_id(text: &str) -> EventId {
    EventId::parse(text).unwrap()
}

fn add(id: &str, target: &str, body: &str) -> BookmarkIndexOperation {
    BookmarkIndexOperation::Edit(
        BookmarkPointerInfo {
            event_id: event_id(id),
            original_event_id: event_id(id),
            target_room_id: RoomId::parse("!room:example.org").unwrap(),
            target_event_id: event_id(target),
        },
        IndexedBookmarkContent::new(
            Some(body.to_owned()),
            MilliSecondsSinceUnixEpoch::new(0).unwrap(),
            UserId::parse("@alice:example.org").unwrap(),
        ),
    )
}

#[test]
fn ids_are_valid_or_none() {
    assert_eq!(event_id("$a:example.org").as_str(), "$a:example.org");
    assert!(EventId::parse("$hash_without_server").is_some());
    assert!(EventId::parse("a:example.org").is_none());
    assert!(EventId::parse("").is_none());
    assert!(RoomId::parse("!a:example.org").is_some());
    assert!(RoomId::parse("#a:example.org").is_none());
    assert!(UserId::parse("@a:example.org").is_some());
    assert!(UserId::parse("@a").is_none());
    assert!(event_id("$a:example.org").same_as(&event_id("$a:example.org").clone()));
    assert!(!event_id("$a:example.org").same_as(&event_id("$b:example.org")));
}

#[test]
fn instants_fit_nanoseconds() {
    assert_eq!(MilliSecondsSinceUnixEpoch::new(MAX_MILLIS).unwrap().get(), 9_223_372_036_854);
    assert!(MilliSecondsSinceUnixEpoch::new(MAX_MILLIS + 1).is_none());
    assert_eq!(MilliSecondsSinceUnixEpoch::new(5).unwrap().get(), 5);
}

#[test]
fn schema_has_the_fields_of_bookmarks() {
    let schema = BookmarkSchema::new();
    let names: Vec<&str> = (0..7).map(|field| schema.get_field_name(field)).collect();
    assert_eq!(
        names,
        vec![
            "event_id",
            "original_event_id",
            "target_event_id",
            "target_room_id",
            "body",
            "date",
            "sender",
        ]
    );
    assert_eq!(schema.default_search_fields(), vec![4]);
    assert_eq!(schema.primary_key(), 0);
    assert_eq!(schema.deletion_key(), 1);
    assert_eq!(schema.target_event_id_key(), 2);
    assert_eq!(schema.target_room_id_key(), 3);
}

#[test]
fn schema_reads_back() {
    let schema = BookmarkSchema::try_from(BookmarkSchema::new().as_tantivy_schema()).unwrap();
    assert_eq!(schema.primary_key(), 0);
    assert_eq!(schema.target_room_id_key(), 3);
    assert_eq!(schema.default_search_fields(), vec![4]);
    assert_eq!(schema.as_tantivy_schema(), BookmarkSchema::new().as_tantivy_schema());
}

#[test]
fn schema_without_a_field_is_refused() {
    let mut builder = tantivy::schema::Schema::builder();
    builder.add_text_field("event_id", tantivy::schema::STRING);
    let error = BookmarkSchema::try_from(builder.build()).err().unwrap();
    assert!(matches!(
        error.source,
        tantivy::TantivyError::FieldNotFound(name) if name == "original_event_id"
    ));
}

#[test]
fn builders_place_indexes_under_their_directory() {
    let builder = BookmarkIndexBuilder::new_on_disk(PathBuf::from("/base"));
    assert_eq!(builder.unencrypted().directory(), PathBuf::from("/base/bookmarks_unencrypted"));
    let encrypted = builder.encrypted("secret");
    assert_eq!(encrypted.directory(), PathBuf::from("/base/bookmarks_encrypted"));
    assert_eq!(encrypted.password(), "secret");
    assert_eq!(encrypted.into_password(), "secret");
    let other = PhysicalBookmarkIndexBuilder::new(PathBuf::from("/other"));
    assert_eq!(other.unencrypted().directory(), PathBuf::from("/other/bookmarks_unencrypted"));
    assert!(MemoryBookmarkIndexBuilder::new().build().search("*", 1, None, None).unwrap().is_empty());
}

#[test]
fn missing_directory_is_created_once() {
    let directory = PathBuf::from("/base/bookmarks_unencrypted");
    let builder = BookmarkIndexBuilder::new_on_disk(PathBuf::from("/base")).unencrypted();
    let missing = || OpenDirectoryError::DoesNotExist(PathBuf::from("d"));
    let (state, action) =
        builder.build_step(DirectoryState::First, DirectoryEvent::NotOpened(missing()));
    assert_eq!(state, DirectoryState::First);
    assert!(matches!(action, DirectoryAction::Create));
    let (state, action) = open_directory_step(&directory, state, DirectoryEvent::Created);
    assert_eq!(state, DirectoryState::Second);
    assert!(matches!(action, DirectoryAction::Open));
    let (_, action) = builder.build_step(state, DirectoryEvent::NotOpened(missing()));
    assert!(matches!(action, DirectoryAction::Fail(OpenDirectoryError::DoesNotExist(_))));
    let (_, action) = builder.build_step(state, DirectoryEvent::Opened);
    assert!(matches!(action, DirectoryAction::Use));
    let (_, action) = builder.build_step(
        DirectoryState::First,
        DirectoryEvent::NotOpened(OpenDirectoryError::NotADirectory(PathBuf::from("d"))),
    );
    assert!(matches!(action, DirectoryAction::Fail(OpenDirectoryError::NotADirectory(_))));
}

#[test]
fn directory_that_is_not_created_is_named() {
    let failed = || DirectoryEvent::NotCreated("denied".to_owned());
    let base = BookmarkIndexBuilder::new_on_disk(PathBuf::from("/base"));
    let (_, action) = base.unencrypted().build_step(DirectoryState::First, failed());
    assert!(matches!(
        action,
        DirectoryAction::Fail(OpenDirectoryError::IoError { io_error, directory_path })
            if io_error == "denied"
                && directory_path == PathBuf::from("/base/bookmarks_unencrypted")
    ));
    let (_, action) = base.encrypted("secret").build_step(DirectoryState::First, failed());
    assert!(matches!(
        action,
        DirectoryAction::Fail(OpenDirectoryError::IoError { io_error, directory_path })
            if io_error == "denied" && directory_path == PathBuf::from("/base/bookmarks_encrypted")
    ));
}

#[test]
fn index_in_memory_is_created_when_needed() {
    let mut guard = BookmarkIndexGuard::new(BookmarkIndexStoreKind::InMemory);
    assert!(guard.directory_to_open().is_none());
    assert!(guard.get_bookmark_id_for_event(None, &event_id("$t:example.org")).is_none());
    guard.execute(None, add("$b:example.org", "$t:example.org", "quick fox")).unwrap();
    assert_eq!(guard.search(None, "fox", 10, None, None).unwrap().len(), 1);
    assert_eq!(
        guard.is_event_bookmarked(None, &event_id("$t:example.org")),
        Some(event_id("$b:example.org"))
    );
    assert!(guard.is_event_bookmarked(None, &event_id("$x:example.org")).is_none());
    guard
        .bulk_execute(
            None,
            vec![
                add("$c:example.org", "$u:example.org", "lazy dog"),
                BookmarkIndexOperation::Remove(event_id("$b:example.org")),
            ],
        )
        .unwrap();
    assert!(guard.is_event_bookmarked(None, &event_id("$t:example.org")).is_none());
    assert!(guard.get_or_create_index(None).unwrap().contains(&event_id("$c:example.org")));
}

#[test]
fn index_on_disk_is_the_one_that_was_opened() {
    let kind = BookmarkIndexStoreKind::UnencryptedDirectory(PathBuf::from("/base"));
    let mut guard = BookmarkIndexGuard::new(kind.clone());
    assert!(matches!(
        guard.directory_to_open(),
        Some(BookmarkIndexStoreKind::UnencryptedDirectory(path)) if *path == PathBuf::from("/base")
    ));
    let failed = guard.execute(Some(Err(IndexError::IdParsing)), BookmarkIndexOperation::Noop);
    assert!(matches!(failed, Err(IndexError::IdParsing)));
    assert!(guard.directory_to_open().is_some());
    assert!(guard
        .is_event_bookmarked(Some(Err(IndexError::IdParsing)), &event_id("$t:example.org"))
        .is_none());
    let mut opened = BookmarkIndexBuilder::new_in_memory().build();
    opened.execute(add("$b:example.org", "$t:example.org", "quick fox")).unwrap();
    assert_eq!(guard.search(Some(Ok(opened)), "fox", 10, None, None).unwrap().len(), 1);
    assert!(guard.directory_to_open().is_none());
    let encrypted = BookmarkIndexGuard::new(BookmarkIndexStoreKind::EncryptedDirectory(
        PathBuf::from("/base"),
        "password".to_owned(),
    ));
    assert!(matches!(
        encrypted.directory_to_open(),
        Some(BookmarkIndexStoreKind::EncryptedDirectory(_, password)) if password == "password"
    ));
}
