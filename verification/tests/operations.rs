//! Operations on an index in memory, alone and in one go.

use std::path::PathBuf;

use bookmark_index::bookmark::{BookmarkPointerInfo, IndexedBookmarkContent};
use bookmark_index::builder::BookmarkIndexBuilder;
use bookmark_index::error::{FailurePolicy, IndexError, IndexWriteError, OpenDirectoryError};
use bookmark_index::events::{
    BookmarkEventContent, MediaText, MessageType, OriginalSyncBookmarkEvent,
    OriginalSyncRoomMessageEvent, PointerContentBlock, Relation, Replacement,
};
use bookmark_index::execute::{decide_next_try, first_pointer, NextTry};
use bookmark_index::ids::{EventId, MilliSecondsSinceUnixEpoch, RoomId, UserId};
use bookmark_index::index::BookmarkIndex;
use bookmark_index::operation::{
    derive_bookmark_operation_from_regular_index_operation, BookmarkIndexOperation,
    RoomIndexOperation,
};
use bookmark_index::schema::{fits, BookmarkSchema};

fn event_id(text: &str) -> EventId {
    EventId::parse(text).unwrap()
}

fn room_id(text: &str) -> RoomId {
    RoomId::parse(text).unwrap()
}

fn content(body: &str) -> IndexedBookmarkContent {
    IndexedBookmarkContent::new(
        Some(body.to_owned()),
        MilliSecondsSinceUnixEpoch::new(0).unwrap(),
        UserId::parse("@alice:example.org").unwrap(),
    )
}

fn pointer_block(room: &str, target: &str) -> PointerContentBlock {
    PointerContentBlock { room_id: room_id(room), event_id: event_id(target), via: vec![] }
}

fn bookmark_event(id: &str, target: &str) -> OriginalSyncBookmarkEvent {
    OriginalSyncBookmarkEvent {
        event_id: event_id(id),
        content: BookmarkEventContent {
            pointer: pointer_block("!room:example.org", target),
            sender_display_name: "Alice".to_owned(),
            room_display_name: "Room".to_owned(),
            relates_to: None,
        },
    }
}

fn add(id: &str, target: &str, body: &str) -> BookmarkIndexOperation {
    BookmarkIndexOperation::Add(Box::new(bookmark_event(id, target)), content(body))
}

fn pointer(id: &str, original: &str, target: &str) -> BookmarkPointerInfo {
    BookmarkPointerInfo {
        event_id: event_id(id),
        original_event_id: event_id(original),
        target_room_id: room_id("!room:example.org"),
        target_event_id: event_id(target),
    }
}

fn new_index() -> BookmarkIndex {
    BookmarkIndexBuilder::new_in_memory().build()
}

/// The ids of the bookmark events that a query finds, sorted.
fn found(index: &BookmarkIndex, query: &str) -> Vec<String> {
    let mut ids: Vec<String> = index
        .search(query, 50, None, None)
        .unwrap()
        .iter()
        .map(|bookmark| bookmark.event_id.as_str().to_owned())
        .collect();
    ids.sort();
    ids
}

#[test]
fn added_bookmark_is_indexed_and_found() {
    let mut index = new_index();
    index.execute(add("$b1:example.org", "$t1:example.org", "quick fox")).unwrap();
    assert!(index.contains(&event_id("$b1:example.org")));
    assert!(!index.contains(&event_id("$b2:example.org")));
    assert_eq!(found(&index, "fox"), vec!["$b1:example.org"]);
    let info = index.get_pointer_info_from_target_event(&event_id("$t1:example.org")).unwrap();
    assert_eq!(info, pointer("$b1:example.org", "$b1:example.org", "$t1:example.org"));
    assert_eq!(info.bookmark_id(), event_id("$b1:example.org"));
}

#[test]
fn adding_again_changes_nothing() {
    let mut index = new_index();
    index.execute(add("$b1:example.org", "$t1:example.org", "quick fox")).unwrap();
    index.execute(add("$b1:example.org", "$t1:example.org", "lazy dog")).unwrap();
    assert_eq!(found(&index, "*"), vec!["$b1:example.org"]);
    assert_eq!(found(&index, "fox"), vec!["$b1:example.org"]);
    assert!(found(&index, "dog").is_empty());
}

#[test]
fn removed_bookmark_is_gone_in_all_versions() {
    let mut index = new_index();
    index.execute(add("$b1:example.org", "$t1:example.org", "quick fox")).unwrap();
    index.execute(add("$b2:example.org", "$t2:example.org", "lazy dog")).unwrap();
    index.execute(BookmarkIndexOperation::Remove(event_id("$b1:example.org"))).unwrap();
    assert_eq!(found(&index, "*"), vec!["$b2:example.org"]);
    assert!(!index.contains(&event_id("$b1:example.org")));
    index.execute(BookmarkIndexOperation::Remove(event_id("$b1:example.org"))).unwrap();
    assert_eq!(found(&index, "*"), vec!["$b2:example.org"]);
}

#[test]
fn removed_bookmark_can_be_added_again() {
    let mut index = new_index();
    index.execute(add("$b1:example.org", "$t1:example.org", "quick fox")).unwrap();
    index.execute(BookmarkIndexOperation::Remove(event_id("$b1:example.org"))).unwrap();
    index.execute(add("$b1:example.org", "$t1:example.org", "lazy dog")).unwrap();
    assert_eq!(found(&index, "dog"), vec!["$b1:example.org"]);
}

#[test]
fn edit_leaves_the_new_version() {
    let mut index = new_index();
    index.execute(add("$b1:example.org", "$t1:example.org", "quick fox")).unwrap();
    index.execute(add("$b2:example.org", "$t2:example.org", "lazy dog")).unwrap();
    let edit = pointer("$e1:example.org", "$b1:example.org", "$t3:example.org");
    index.execute(BookmarkIndexOperation::Edit(edit, content("slow turtle"))).unwrap();
    assert_eq!(found(&index, "*"), vec!["$b2:example.org", "$e1:example.org"]);
    assert!(found(&index, "fox").is_empty());
    let results = index.search("turtle", 10, None, None).unwrap();
    assert_eq!(results.len(), 1);
    assert_eq!(results[0].original_event_id, event_id("$b1:example.org"));
    assert_eq!(results[0].target_event_id, event_id("$t3:example.org"));
    // The edited bookmark is removed by its first version.
    index.execute(BookmarkIndexOperation::Remove(event_id("$b1:example.org"))).unwrap();
    assert_eq!(found(&index, "*"), vec!["$b2:example.org"]);
}

#[test]
fn edit_of_the_same_version_replaces_its_content() {
    let mut index = new_index();
    index.execute(add("$b1:example.org", "$t1:example.org", "quick fox")).unwrap();
    let same = pointer("$b1:example.org", "$b1:example.org", "$t1:example.org");
    index.execute(BookmarkIndexOperation::Edit(same, content("slow turtle"))).unwrap();
    assert_eq!(found(&index, "*"), vec!["$b1:example.org"]);
    assert_eq!(found(&index, "turtle"), vec!["$b1:example.org"]);
    assert!(found(&index, "fox").is_empty());
}

#[test]
fn all_bookmarks_of_a_target_are_removed() {
    let mut index = new_index();
    index
        .bulk_execute(vec![
            add("$b1:example.org", "$t1:example.org", "quick fox"),
            add("$b2:example.org", "$t1:example.org", "quick fox"),
            add("$b3:example.org", "$t2:example.org", "lazy dog"),
        ])
        .unwrap();
    index
        .execute(BookmarkIndexOperation::RemoveWithTargetEventId(event_id("$t1:example.org")))
        .unwrap();
    assert_eq!(found(&index, "*"), vec!["$b3:example.org"]);
    index
        .execute(BookmarkIndexOperation::RemoveWithTargetEventId(event_id("$t9:example.org")))
        .unwrap();
    assert_eq!(found(&index, "*"), vec!["$b3:example.org"]);
}

#[test]
fn all_bookmarks_of_a_target_are_renewed() {
    let mut index = new_index();
    index
        .bulk_execute(vec![
            add("$b1:example.org", "$t1:example.org", "quick fox"),
            add("$b2:example.org", "$t1:example.org", "quick fox"),
            add("$b3:example.org", "$t2:example.org", "lazy dog"),
        ])
        .unwrap();
    index
        .execute(BookmarkIndexOperation::EditWithTargetEventId(
            event_id("$t1:example.org"),
            content("slow turtle"),
        ))
        .unwrap();
    assert_eq!(found(&index, "turtle"), vec!["$b1:example.org", "$b2:example.org"]);
    assert!(found(&index, "fox").is_empty());
    assert_eq!(found(&index, "dog"), vec!["$b3:example.org"]);
    index
        .execute(BookmarkIndexOperation::EditWithTargetEventId(
            event_id("$t9:example.org"),
            content("nothing"),
        ))
        .unwrap();
    assert!(found(&index, "nothing").is_empty());
    assert_eq!(found(&index, "*").len(), 3);
}

#[test]
fn noop_changes_nothing() {
    let mut index = new_index();
    index.execute(add("$b1:example.org", "$t1:example.org", "quick fox")).unwrap();
    index.execute(BookmarkIndexOperation::Noop).unwrap();
    assert_eq!(found(&index, "*"), vec!["$b1:example.org"]);
}

#[test]
fn bulk_adds_are_single_adds() {
    let mut bulk = new_index();
    bulk.bulk_execute(vec![
        add("$b1:example.org", "$t1:example.org", "quick fox"),
        add("$b2:example.org", "$t2:example.org", "lazy dog"),
        add("$b1:example.org", "$t1:example.org", "slow turtle"),
    ])
    .unwrap();
    let mut single = new_index();
    single.execute(add("$b1:example.org", "$t1:example.org", "quick fox")).unwrap();
    single.execute(add("$b2:example.org", "$t2:example.org", "lazy dog")).unwrap();
    single.execute(add("$b1:example.org", "$t1:example.org", "slow turtle")).unwrap();
    for query in ["*", "fox", "dog", "turtle"] {
        assert_eq!(found(&bulk, query), found(&single, query));
    }
    assert_eq!(found(&bulk, "*").len(), 2);
}

#[test]
fn bulk_without_operations_changes_nothing() {
    let mut index = new_index();
    index.bulk_execute(vec![]).unwrap();
    assert!(found(&index, "*").is_empty());
}

#[test]
fn staged_bookmarks_count_as_indexed_before_the_commit() {
    let mut index = new_index();
    let mut writer = index.get_writer().unwrap();
    let info = pointer("$b1:example.org", "$b1:example.org", "$t1:example.org");
    index.add(&mut writer, info, content("quick fox")).unwrap();
    assert!(index.contains(&event_id("$b1:example.org")));
    assert!(found(&index, "*").is_empty());
    index.commit(&mut writer).unwrap();
    assert_eq!(found(&index, "*"), vec!["$b1:example.org"]);
    index.remove(&mut writer, &event_id("$b1:example.org")).unwrap();
    assert!(!index.contains(&event_id("$b1:example.org")));
    assert_eq!(found(&index, "*"), vec!["$b1:example.org"]);
    index.commit_and_reload(&mut writer).unwrap();
    assert!(found(&index, "*").is_empty());
}

#[test]
fn what_is_not_committed_is_forgotten_with_the_writer() {
    let mut index = new_index();
    {
        let mut writer = index.get_writer().unwrap();
        let info = pointer("$b1:example.org", "$b1:example.org", "$t1:example.org");
        index.add(&mut writer, info, content("quick fox")).unwrap();
    }
    assert!(found(&index, "*").is_empty());
}

#[test]
fn second_writer_is_an_engine_error() {
    let mut index = new_index();
    let writer = index.get_writer().unwrap();
    assert!(matches!(index.get_writer(), Err(IndexError::TantivyError(_))));
    let failed = index.execute(add("$b1:example.org", "$t1:example.org", "quick fox"));
    assert!(matches!(failed, Err(IndexError::TantivyError(_))));
    drop(writer);
    index.execute(add("$b1:example.org", "$t1:example.org", "quick fox")).unwrap();
    assert_eq!(found(&index, "*"), vec!["$b1:example.org"]);
}

#[test]
fn long_text_is_indexed() {
    let mut index = new_index();
    let long = "word ".repeat(200_000);
    let info = pointer("$b1:example.org", "$b1:example.org", "$t1:example.org");
    assert!(fits(&info, &content(&long)));
    index.execute(add("$b1:example.org", "$t1:example.org", &format!("{long} needle"))).unwrap();
    assert_eq!(found(&index, "needle"), vec!["$b1:example.org"]);
}

/// An index on disk with a document that has nothing but a target, and no valid ids.
fn with_unreadable_bookmark(target: &str) -> BookmarkIndex {
    let schema = BookmarkSchema::new();
    let engine = tantivy::Index::create_from_tempdir(schema.as_tantivy_schema()).unwrap();
    let mut writer: tantivy::IndexWriter = engine.writer(50_000_000).unwrap();
    let mut document = tantivy::TantivyDocument::new();
    document.add_text(tantivy::schema::Field::from_field_id(2), target);
    writer.add_document(document).unwrap();
    writer.commit().unwrap();
    drop(writer);
    BookmarkIndex::new_with(engine, schema)
}

#[test]
fn operations_in_one_go_are_executed_all_or_none() {
    let mut index = with_unreadable_bookmark("$bad:example.org");
    index.execute(add("$b1:example.org", "$t1:example.org", "quick fox")).unwrap();
    let bad = || event_id("$bad:example.org");
    let failed = index.bulk_execute(vec![
        BookmarkIndexOperation::Remove(event_id("$b1:example.org")),
        add("$b2:example.org", "$t2:example.org", "lazy dog"),
        BookmarkIndexOperation::RemoveWithTargetEventId(bad()),
    ]);
    assert!(matches!(failed, Err(IndexError::IdParsing)));
    assert_eq!(found(&index, "fox"), vec!["$b1:example.org"]);
    assert!(found(&index, "dog").is_empty());
    let failed =
        index.execute(BookmarkIndexOperation::EditWithTargetEventId(bad(), content("lazy dog")));
    assert!(matches!(failed, Err(IndexError::IdParsing)));
    // The next writer starts from what is committed.
    index.execute(add("$b2:example.org", "$t2:example.org", "lazy dog")).unwrap();
    assert_eq!(found(&index, "fox OR dog"), vec!["$b1:example.org", "$b2:example.org"]);
}

#[test]
fn operations_in_one_go_do_what_they_do_one_by_one() {
    let b1 = || add("$b1:example.org", "$t1:example.org", "hello");
    let remove = || BookmarkIndexOperation::Remove(event_id("$b1:example.org"));
    let edit = || {
        BookmarkIndexOperation::Edit(
            pointer("$e1:example.org", "$b1:example.org", "$t1:example.org"),
            content("edited"),
        )
    };
    let runs: Vec<fn() -> Vec<u8>> = vec![
        || vec![0, 1, 0],
        || vec![0, 0],
        || vec![0, 2],
        || vec![0, 2, 2],
        || vec![0, 2, 1],
        || vec![0, 2, 1, 0],
        || vec![2, 0, 1, 2],
        || vec![1, 0, 1],
        || vec![0, 3],
        || vec![0, 4],
        || vec![0, 3, 0, 4],
        || vec![4, 0, 4, 2],
        || vec![0, 4, 3, 2, 4],
    ];
    for run in runs {
        let operations = || -> Vec<BookmarkIndexOperation> {
            run()
                .into_iter()
                .map(|kind| match kind {
                    0 => b1(),
                    1 => remove(),
                    2 => edit(),
                    3 => BookmarkIndexOperation::RemoveWithTargetEventId(event_id(
                        "$t1:example.org",
                    )),
                    _ => BookmarkIndexOperation::EditWithTargetEventId(
                        event_id("$t1:example.org"),
                        content("edited again"),
                    ),
                })
                .collect()
        };
        let mut bulk = new_index();
        bulk.bulk_execute(operations()).unwrap();
        let mut single = new_index();
        for operation in operations() {
            single.execute(operation).unwrap();
        }
        assert_eq!(found(&bulk, "*"), found(&single, "*"), "{:?}", run());
        assert_eq!(found(&bulk, "edited"), found(&single, "edited"), "{:?}", run());
    }
    let mut index = new_index();
    index.bulk_execute(vec![b1(), remove(), b1()]).unwrap();
    assert_eq!(found(&index, "*"), vec!["$b1:example.org"]);
}

#[test]
fn two_additions_before_a_commit_leave_one_document() {
    let mut index = new_index();
    index
        .bulk_execute(vec![
            add("$b1:example.org", "$t1:example.org", "first"),
            add("$b1:example.org", "$t1:example.org", "second"),
        ])
        .unwrap();
    assert_eq!(found(&index, "*"), vec!["$b1:example.org"]);
    assert_eq!(found(&index, "first"), vec!["$b1:example.org"]);
    assert!(found(&index, "second").is_empty());
}

#[test]
fn bookmarks_added_before_a_commit_are_renewed_with_their_target() {
    let mut index = new_index();
    index.execute(add("$b1:example.org", "$t1:example.org", "quick fox")).unwrap();
    index
        .bulk_execute(vec![
            add("$b2:example.org", "$t1:example.org", "quick fox"),
            BookmarkIndexOperation::EditWithTargetEventId(
                event_id("$t1:example.org"),
                content("lazy dog"),
            ),
        ])
        .unwrap();
    assert!(found(&index, "fox").is_empty());
    assert_eq!(found(&index, "dog"), vec!["$b1:example.org", "$b2:example.org"]);
}

#[test]
fn operations_on_an_event_that_is_not_bookmarked_change_nothing() {
    let mut index = new_index();
    index.execute(add("$b1:example.org", "$t1:example.org", "quick fox")).unwrap();
    let other = || event_id("$other:example.org");
    index.execute(BookmarkIndexOperation::RemoveWithTargetEventId(other())).unwrap();
    index
        .execute(BookmarkIndexOperation::EditWithTargetEventId(other(), content("lazy dog")))
        .unwrap();
    assert_eq!(found(&index, "fox"), vec!["$b1:example.org"]);
    assert!(found(&index, "dog").is_empty());
}

#[test]
fn failed_lookups_are_reported_and_change_nothing() {
    let mut index = new_index();
    index.execute(add("$b1:example.org", "$t1:example.org", "quick fox")).unwrap();
    let mut writer = index.get_writer().unwrap();
    let target = event_id("$t1:example.org");
    let failed = || Err(IndexError::IdParsing);
    assert!(matches!(
        index.remove_target(&mut writer, &target, failed()),
        Err(IndexError::IdParsing)
    ));
    assert!(matches!(
        index.edit_target(&mut writer, &target, &content("lazy dog"), failed()),
        Err(IndexError::IdParsing)
    ));
    let info = pointer("$b2:example.org", "$b2:example.org", "$t2:example.org");
    assert!(matches!(
        index.add_found(&mut writer, &info, &content("lazy dog"), failed()),
        Err(IndexError::IdParsing)
    ));
    let other = event_id("$other:example.org");
    index.remove_target(&mut writer, &other, Ok(vec![])).unwrap();
    index.edit_target(&mut writer, &other, &content("lazy dog"), Ok(vec![])).unwrap();
    index.commit_and_reload(&mut writer).unwrap();
    assert_eq!(found(&index, "fox"), vec!["$b1:example.org"]);
    assert!(found(&index, "dog").is_empty());
}

#[test]
fn document_without_valid_ids_is_an_id_error() {
    let index = with_unreadable_bookmark("$bad:example.org");
    assert!(matches!(index.search("*", 10, None, None), Err(IndexError::IdParsing)));
}

#[test]
fn deeply_nested_query_is_an_error() {
    let mut index = new_index();
    index.execute(add("$b1:example.org", "$t1:example.org", "quick fox")).unwrap();
    let nested = |levels: usize| format!("{}fox{}", "(".repeat(levels), ")".repeat(levels));
    assert_eq!(found(&index, &nested(128)), vec!["$b1:example.org"]);
    assert!(matches!(
        index.search(&nested(129), 10, None, None),
        Err(IndexError::QueryTooDeep)
    ));
    assert!(matches!(
        index.search(&"(".repeat(300_000), 10, None, None),
        Err(IndexError::QueryTooDeep)
    ));
    assert!(matches!(
        index.search(&"NOT ".repeat(129), 10, None, None),
        Err(IndexError::QueryTooDeep)
    ));
    assert!(matches!(
        index.search(&"(\")\" ".repeat(129), 10, None, None),
        Err(IndexError::QueryTooDeep)
    ));
    assert_eq!(found(&index, &"(fox) ".repeat(200)), vec!["$b1:example.org"]);
    assert_eq!(found(&index, &"fox NOTHING ".repeat(200)), vec!["$b1:example.org"]);
}

#[test]
fn boosts_change_the_order_and_not_the_matches() {
    let mut index = new_index();
    index
        .bulk_execute(vec![
            add("$b1:example.org", "$t1:example.org", "quick fox"),
            add("$b2:example.org", "$t2:example.org", "lazy dog"),
        ])
        .unwrap();
    let first = |query: &str| {
        let results = index.search(query, 10, None, None).unwrap();
        assert_eq!(results.len(), 2);
        results[0].event_id.as_str().to_owned()
    };
    assert_eq!(first("fox^3 dog"), "$b1:example.org");
    assert_eq!(first("fox dog^3"), "$b2:example.org");
    assert_eq!(first("fox^0 dog"), "$b2:example.org");
}

#[test]
fn operations_by_target_cover_what_was_added_before_them() {
    let mut index = new_index();
    let target = || event_id("$t1:example.org");
    index
        .bulk_execute(vec![
            add("$b1:example.org", "$t1:example.org", "quick fox"),
            BookmarkIndexOperation::EditWithTargetEventId(target(), content("lazy dog")),
        ])
        .unwrap();
    assert!(found(&index, "fox").is_empty());
    assert_eq!(found(&index, "dog"), vec!["$b1:example.org"]);
    let mut index = new_index();
    index
        .bulk_execute(vec![
            add("$b1:example.org", "$t1:example.org", "quick fox"),
            BookmarkIndexOperation::RemoveWithTargetEventId(target()),
        ])
        .unwrap();
    assert!(found(&index, "*").is_empty());
}

#[test]
fn text_that_is_no_query_is_a_parser_error() {
    let index = new_index();
    assert!(matches!(
        index.search("unknown_field:fox", 10, None, None),
        Err(IndexError::QueryParserError(_))
    ));
    assert!(matches!(
        index.search("unknown_field:fox", 10, None, Some(&room_id("!room:example.org"))),
        Err(IndexError::QueryParserError(_))
    ));
    assert!(index.search("", 10, None, None).unwrap().is_empty());
    assert!(index.search("*", 10, None, None).unwrap().is_empty());
}

#[test]
fn pages_are_parts_of_all_results() {
    let mut index = new_index();
    index
        .bulk_execute(vec![
            add("$b1:example.org", "$t1:example.org", "matrix"),
            add("$b2:example.org", "$t2:example.org", "matrix matrix is"),
            add("$b3:example.org", "$t3:example.org", "matrix is a protocol"),
            add("$b4:example.org", "$t4:example.org", "matrix is a long protocol with words"),
        ])
        .unwrap();
    let ids = |max: usize, offset: Option<usize>| -> Vec<String> {
        index
            .search("matrix", max, offset, None)
            .unwrap()
            .iter()
            .map(|bookmark| bookmark.event_id.as_str().to_owned())
            .collect()
    };
    let all = ids(10, None);
    assert_eq!(all.len(), 4);
    assert_eq!(ids(2, Some(1)), all[1..3].to_vec());
    assert_eq!(ids(3, Some(3)), all[3..].to_vec());
    assert!(ids(3, Some(4)).is_empty());
    assert_eq!(ids(1, Some(0)), all[..1].to_vec());
}

#[test]
fn dates_and_senders_are_indexed() {
    let mut index = new_index();
    let late = IndexedBookmarkContent::new(
        None,
        MilliSecondsSinceUnixEpoch::new(86_400_000).unwrap(),
        UserId::parse("@bob:example.org").unwrap(),
    );
    index.execute(add("$b1:example.org", "$t1:example.org", "quick fox")).unwrap();
    index
        .execute(BookmarkIndexOperation::Add(
            Box::new(bookmark_event("$b2:example.org", "$t2:example.org")),
            late,
        ))
        .unwrap();
    assert_eq!(
        found(&index, "date:[1970-01-01T23:59:59Z TO 1970-01-02T00:00:00Z]"),
        vec!["$b2:example.org"]
    );
    assert_eq!(
        found(&index, "date:[1970-01-01T00:00:00Z TO 1970-01-01T00:00:01Z]"),
        vec!["$b1:example.org"]
    );
    assert_eq!(found(&index, "sender:\"@bob:example.org\""), vec!["$b2:example.org"]);
}

#[test]
fn failures_are_retried_reported_or_ignored() {
    let directory = PathBuf::from("d");
    let io = IndexError::OpenDirectoryError(OpenDirectoryError::IoError {
        io_error: "io".to_owned(),
        directory_path: directory.clone(),
    });
    let missing =
        IndexError::OpenDirectoryError(OpenDirectoryError::DoesNotExist(directory.clone()));
    let file = IndexError::OpenDirectoryError(OpenDirectoryError::NotADirectory(directory));
    let temp =
        IndexError::OpenDirectoryError(OpenDirectoryError::FailedToCreateTempDir("d".to_owned()));
    assert_eq!(io.policy(), FailurePolicy::Retry);
    assert_eq!(IndexError::IO("io".to_owned()).policy(), FailurePolicy::Retry);
    assert_eq!(
        IndexError::IndexWriteError(IndexWriteError::TextTooLong).policy(),
        FailurePolicy::Retry
    );
    assert_eq!(
        IndexError::TantivyError(tantivy::TantivyError::InternalError("x".to_owned())).policy(),
        FailurePolicy::Retry
    );
    let no_field = BookmarkSchema::try_from(tantivy::schema::Schema::builder().build());
    assert_eq!(
        IndexError::IndexSchemaError(no_field.err().unwrap()).policy(),
        FailurePolicy::Retry
    );
    assert_eq!(missing.policy(), FailurePolicy::Bubble);
    assert_eq!(file.policy(), FailurePolicy::Bubble);
    assert_eq!(temp.policy(), FailurePolicy::Bubble);
    assert_eq!(IndexError::IdParsing.policy(), FailurePolicy::Bubble);
    assert_eq!(IndexError::QueryTooDeep.policy(), FailurePolicy::Bubble);
    let query = new_index().search("unknown_field:fox", 10, None, None).err().unwrap();
    assert_eq!(query.policy(), FailurePolicy::Bubble);
    assert_eq!(IndexError::CannotIndexRedactedMessage.policy(), FailurePolicy::Ignore);
    assert_eq!(IndexError::EmptyMessage.policy(), FailurePolicy::Ignore);
    assert_eq!(IndexError::MessageTypeNotSupported.policy(), FailurePolicy::Ignore);

    assert_eq!(decide_next_try(4, 5, &io), NextTry::Again);
    assert_eq!(decide_next_try(5, 5, &io), NextTry::Fail);
    assert_eq!(decide_next_try(0, 5, &missing), NextTry::Fail);
    assert_eq!(decide_next_try(0, 5, &IndexError::EmptyMessage), NextTry::GoOn);
    assert_eq!(decide_next_try(5, 5, &IndexError::EmptyMessage), NextTry::Fail);
}

#[test]
fn failed_lookups_are_taken_to_the_safe_side() {
    let mut index = new_index();
    index.execute(add("$b1:example.org", "$t1:example.org", "quick fox")).unwrap();
    let id = event_id("$b9:example.org");
    assert!(index.is_listed(&Err(IndexError::IdParsing), &id));
    assert!(!index.is_listed(&Ok(vec![]), &id));
    let lookup = index.find_by_event_id_field(0, &event_id("$b1:example.org"), 1);
    assert!(index.is_listed(&lookup, &event_id("$b1:example.org")));
    assert_eq!(
        first_pointer(&lookup),
        Some(pointer("$b1:example.org", "$b1:example.org", "$t1:example.org"))
    );
    assert_eq!(first_pointer(&Ok(vec![])), None);
    assert_eq!(first_pointer(&Err(IndexError::IdParsing)), None);
}

#[test]
fn edits_point_at_what_they_replace() {
    let mut event = bookmark_event("$e1:example.org", "$t1:example.org");
    assert_eq!(
        BookmarkPointerInfo::from(bookmark_event("$e1:example.org", "$t1:example.org")),
        pointer("$e1:example.org", "$e1:example.org", "$t1:example.org")
    );
    event.content.relates_to = Some(Relation::Other);
    assert_eq!(
        BookmarkPointerInfo::of_event(&event),
        pointer("$e1:example.org", "$e1:example.org", "$t1:example.org")
    );
    event.content.relates_to = Some(Relation::Replacement(Replacement {
        event_id: event_id("$b1:example.org"),
        new_pointer: pointer_block("!room:example.org", "$t2:example.org"),
    }));
    assert_eq!(
        BookmarkPointerInfo::from(event),
        pointer("$e1:example.org", "$b1:example.org", "$t2:example.org")
    );
}

fn message(msgtype: MessageType) -> OriginalSyncRoomMessageEvent {
    OriginalSyncRoomMessageEvent {
        sender: UserId::parse("@alice:example.org").unwrap(),
        origin_server_ts: MilliSecondsSinceUnixEpoch::new(17).unwrap(),
        msgtype,
    }
}

fn media(body: &str, filename: Option<&str>) -> MediaText {
    MediaText { body: body.to_owned(), filename: filename.map(|name| name.to_owned()) }
}

#[test]
fn messages_are_found_by_their_text_or_caption() {
    let body = |msgtype: MessageType| IndexedBookmarkContent::from(message(msgtype)).body;
    assert_eq!(body(MessageType::Text("text".to_owned())), Some("text".to_owned()));
    assert_eq!(body(MessageType::Notice("notice".to_owned())), Some("notice".to_owned()));
    assert_eq!(body(MessageType::Emote("emote".to_owned())), Some("emote".to_owned()));
    assert_eq!(body(MessageType::Other), None);
    for kind in [MessageType::Audio, MessageType::File, MessageType::Image, MessageType::Video] {
        assert_eq!(body(kind(media("caption", Some("f.bin")))), Some("caption".to_owned()));
        assert_eq!(body(kind(media("f.bin", Some("f.bin")))), None);
        assert_eq!(body(kind(media("f.bin", None))), None);
    }
    let content = IndexedBookmarkContent::of_message(&message(MessageType::Other));
    assert_eq!(content.date.get(), 17);
    assert_eq!(content.sender.as_str(), "@alice:example.org");
}

#[test]
fn room_operations_lead_to_bookmark_operations() {
    let edit = RoomIndexOperation::Edit(
        event_id("$t1:example.org"),
        message(MessageType::Text("new".to_owned())),
    );
    match derive_bookmark_operation_from_regular_index_operation(&edit) {
        Some(BookmarkIndexOperation::EditWithTargetEventId(target, content)) => {
            assert_eq!(target, event_id("$t1:example.org"));
            assert_eq!(content.body, Some("new".to_owned()));
        }
        other => panic!("unexpected operation: {other:?}"),
    }
    let remove = RoomIndexOperation::Remove(event_id("$t1:example.org"));
    match derive_bookmark_operation_from_regular_index_operation(&remove) {
        Some(BookmarkIndexOperation::RemoveWithTargetEventId(target)) => {
            assert_eq!(target, event_id("$t1:example.org"));
        }
        other => panic!("unexpected operation: {other:?}"),
    }
    let add = RoomIndexOperation::Add(message(MessageType::Other));
    assert!(derive_bookmark_operation_from_regular_index_operation(&add).is_none());
    assert!(
        derive_bookmark_operation_from_regular_index_operation(&RoomIndexOperation::Noop).is_none()
    );
}

#[test]
fn ids_beyond_the_longest_term_are_not_found() {
    let mut index = new_index();
    let findable = format!("${}", "a".repeat(65_529));
    let too_long = format!("${}", "b".repeat(65_530));
    index.execute(add(&findable, "$t1:example.org", "quick fox")).unwrap();
    index.execute(add(&too_long, "$t2:example.org", "lazy dog")).unwrap();
    assert!(index.contains(&event_id(&findable)));
    assert!(!index.contains(&event_id(&too_long)));
    assert_eq!(found(&index, "dog"), vec![too_long]);
}
